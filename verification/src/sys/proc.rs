//! What `/proc` says of processes and of the sockets they hold.

use vstd::prelude::*;

use crate::text;

verus! {

/// The state that `/proc/net/tcp` gives a listening socket.
pub const TCP_LISTEN_STATE: &'static str = "0A";

pub const PROC_NET_LOCAL_ADDR_FIELD: usize = 1;

pub const PROC_NET_STATE_FIELD: usize = 3;

pub const PROC_NET_INODE_FIELD: usize = 9;

/// Places of the fields in `/proc/{pid}/stat`, counted behind the command name.
pub const PROC_STAT_PPID: usize = 1;

pub const PROC_STAT_UTIME: usize = 11;

pub const PROC_STAT_STIME: usize = 12;

pub const PROC_STAT_STARTTIME: usize = 19;

/// `::1` as the kernel writes it.
pub const V6_LOOPBACK: &'static str = "00000000000000000000000001000000";

// ---------------------------------------------------------------------------
// Addresses
// ---------------------------------------------------------------------------

/// A byte with an ASCII capital letter made small.
pub open spec fn lower_byte(b: u8) -> u8 {
    if 65 <= b <= 90 {
        (b + 32) as u8
    } else {
        b
    }
}

/// Whether the bytes from `at` on are those of `p`, whatever their case.
pub open spec fn reads(b: Seq<u8>, at: int, p: Seq<char>) -> bool {
    forall|i: int| 0 <= i < p.len() ==> lower_byte(b[at + i]) == #[trigger] p[i] as u8
}

/// Whether an address in the kernel's hexadecimal form is reachable from off
/// the host. The form is little-endian: the first octet of an IPv4 address is
/// its last pair of digits.
///
/// 8 digits are an IPv4 address, and 127.0.0.0/8 is loopback. 32 digits are an
/// IPv6 address, where `::1` is loopback and so is an IPv4-mapped 127.x address.
/// Nothing else is an address.
pub open spec fn reachable(b: Seq<u8>) -> bool {
    if b.len() == 8 {
        !reads(b, 6, "7f"@)
    } else if b.len() == 32 {
        !reads(b, 0, V6_LOOPBACK@) && !(reads(b, 16, "ffff0000"@) && reads(b, 30, "7f"@))
    } else {
        false
    }
}

/// Whether an `address:port` of `/proc/net/*` is reachable from off the host.
pub open spec fn externally_bound(local: Seq<char>) -> bool {
    match text::cut_last(local, ':') {
        Some((addr, _port)) => reachable(vstd::utf8::encode_utf8(addr)),
        None => false,
    }
}

fn byte_to_lower(b: u8) -> (r: u8)
    ensures
        r == lower_byte(b),
{
    if 65 <= b && b <= 90 {
        b + 32
    } else {
        b
    }
}

fn reads_at(b: &[u8], at: usize, p: &str) -> (r: bool)
    requires
        at + p@.len() <= b@.len(),
        forall|i: int| 0 <= i < p@.len() ==> (#[trigger] p@[i] as u32) < 128,
    ensures
        r == reads(b@, at as int, p@),
{
    let ps = text::chars(p);
    let n: usize = b.len();
    let mut i: usize = 0;
    while i < ps.len()
        invariant
            n == b@.len(),
            ps@ == p@,
            at + p@.len() <= n,
            i <= ps@.len(),
            forall|k: int| 0 <= k < p@.len() ==> (#[trigger] p@[k] as u32) < 128,
            forall|k: int| 0 <= k < i ==> lower_byte(b@[at + k]) == #[trigger] p@[k] as u8,
        decreases ps@.len() - i,
    {
        let c: char = ps[i];
        assert(c == p@[i as int]);
        if byte_to_lower(b[at + i]) != c as u8 {
            return false;
        }
        i = i + 1;
    }
    true
}

/// Whether a `/proc/net/*` local address is reachable from outside the host.
///
/// Loopback is the app talking to itself — a local cache, IPC between its own
/// processes — and stays allowed. Anything else is reachable from off the
/// machine and bypasses the panel's proxy.
pub fn is_externally_bound(local_addr: &str) -> (r: bool)
    ensures
        r == externally_bound(local_addr@),
{
    match text::rsplit_once(local_addr, ':') {
        None => false,
        Some((addr, _port)) => {
            let b = addr.as_str().as_bytes();
            proof {
                reveal_strlit("7f");
                reveal_strlit("ffff0000");
                reveal_strlit("00000000000000000000000001000000");
            }
            if b.len() == 8 {
                !reads_at(b, 6, "7f")
            } else if b.len() == 32 {
                !reads_at(b, 0, V6_LOOPBACK) && !(reads_at(b, 16, "ffff0000") && reads_at(
                    b,
                    30,
                    "7f",
                ))
            } else {
                false
            }
        },
    }
}

/// The policy has one rule for every address family: a v4-mapped address is
/// loopback exactly when the IPv4 address in it is.
pub proof fn law_mapped_addresses_follow_v4(b: Seq<u8>)
    requires
        b.len() == 32,
        reads(b, 16, "ffff0000"@),
    ensures
        reachable(b) == reachable(b.subrange(24, 32)),
{
    reveal_strlit("7f");
    reveal_strlit("ffff0000");
    reveal_strlit("00000000000000000000000001000000");
    assert(lower_byte(b[16]) == "ffff0000"@[0] as u8);
    assert(!reads(b, 0, V6_LOOPBACK@)) by {
        if reads(b, 0, V6_LOOPBACK@) {
            assert(lower_byte(b[16]) == V6_LOOPBACK@[16] as u8);
        }
    }
    let v4 = b.subrange(24, 32);
    if reads(b, 30, "7f"@) {
        assert forall|i: int| 0 <= i < "7f"@.len() implies lower_byte(v4[6 + i]) == #[trigger] "7f"@[i] as u8 by {
            assert(v4[6 + i] == b[30 + i]);
        }
    }
    if reads(v4, 6, "7f"@) {
        assert forall|i: int| 0 <= i < "7f"@.len() implies lower_byte(b[30 + i]) == #[trigger] "7f"@[i] as u8 by {
            assert(v4[6 + i] == b[30 + i]);
        }
    }
}

// ---------------------------------------------------------------------------
// Fields of /proc/{pid}/status and /proc/{pid}/stat
// ---------------------------------------------------------------------------

/// What follows `p` in the first line that begins with it.
pub open spec fn first_after(ls: Seq<Seq<char>>, p: Seq<char>) -> Option<Seq<char>>
    decreases ls.len(),
{
    if ls.len() == 0 {
        None
    } else if p.is_prefix_of(ls[0]) {
        Some(ls[0].skip(p.len() as int))
    } else {
        first_after(ls.skip(1), p)
    }
}

/// The first word of `s` read as a number.
pub open spec fn first_number(s: Seq<char>, max: nat) -> Option<nat> {
    if text::words(s).len() > 0 {
        text::number(text::words(s)[0], max)
    } else {
        None
    }
}

/// The number that the first line with this label gives.
pub open spec fn labelled(content: Seq<char>, label: Seq<char>, max: nat) -> Option<nat> {
    match first_after(text::lines(content), label) {
        Some(rest) => first_number(rest, max),
        None => None,
    }
}

/// What follows `p` in the first line of `content` that begins with it.
pub fn after_label(content: &str, p: &str) -> (r: Option<String>)
    ensures
        r is Some <==> first_after(text::lines(content@), p@) is Some,
        r matches Some(t) ==> first_after(text::lines(content@), p@) == Some(t@),
{
    let ls = text::split_lines(content);
    let ghost vs = text::views(ls@);
    let mut i: usize = 0;
    assert(vs.skip(0) =~= vs);
    while i < ls.len()
        invariant
            vs == text::views(ls@),
            vs == text::lines(content@),
            i <= ls@.len(),
            first_after(vs, p@) == first_after(vs.skip(i as int), p@),
        decreases ls@.len() - i,
    {
        assert(vs.skip(i as int)[0] == ls@[i as int]@);
        if let Some(t) = text::strip_prefix(&ls[i], p) {
            return Some(t);
        }
        assert(vs.skip(i as int).skip(1) =~= vs.skip(i + 1));
        i = i + 1;
    }
    None
}

fn labelled_word(content: &str, label: &str) -> (r: Option<String>)
    ensures
        r is Some <==> (first_after(text::lines(content@), label@) matches Some(rest)
            && text::words(rest).len() > 0),
        r matches Some(w) ==> first_after(text::lines(content@), label@) matches Some(rest)
            && text::words(rest).len() > 0 && w@ == text::words(rest)[0],
{
    match after_label(content, label) {
        Some(rest) => {
            let ws = text::split_words(&rest);
            if ws.len() > 0 {
                assert(text::views(ws@)[0] == ws@[0]@);
                Some(ws[0].clone())
            } else {
                None
            }
        },
        None => None,
    }
}

/// The real uid of a process, from its `status`.
pub fn read_proc_uid(status: &str) -> (r: Option<u32>)
    ensures
        r is Some <==> labelled(status@, "Uid:"@, u32::MAX as nat) is Some,
        r matches Some(n) ==> labelled(status@, "Uid:"@, u32::MAX as nat) == Some(n as nat),
{
    match labelled_word(status, "Uid:") {
        Some(w) => text::parse_u32(&w),
        None => None,
    }
}

/// The resident memory of a process in kilobytes, from its `status`.
pub fn read_proc_rss_kb(status: &str) -> (r: Option<u64>)
    ensures
        r is Some <==> labelled(status@, "VmRSS:"@, u64::MAX as nat) is Some,
        r matches Some(n) ==> labelled(status@, "VmRSS:"@, u64::MAX as nat) == Some(n as nat),
{
    match labelled_word(status, "VmRSS:") {
        Some(w) => text::parse_u64(&w),
        None => None,
    }
}

/// The fields of a `stat` line behind the command name. The name stands in
/// parentheses and may hold spaces and parentheses of its own, so the last
/// closing one ends it; a space follows.
pub open spec fn stat_tail(stat: Seq<char>) -> Option<Seq<char>> {
    let i = text::last_at(stat, ')');
    if i >= 0 {
        Some(stat.skip(i + 2))
    } else {
        None
    }
}

/// The field at `n` behind the command name, read as a number.
pub open spec fn stat_number(stat: Seq<char>, n: int, max: nat) -> Option<nat> {
    match stat_tail(stat) {
        Some(rest) => {
            let ws = text::words(rest);
            if n < ws.len() {
                text::number(ws[n], max)
            } else {
                None
            }
        },
        None => None,
    }
}

/// Whether a `stat` line can be taken apart: an ASCII character stands behind the
/// command name, where there is one.
pub open spec fn is_parted_stat(stat: Seq<char>) -> bool {
    let i = text::last_at(stat, ')');
    i >= 0 ==> i + 1 < stat.len() && (stat[i + 1] as u32) < 128
}

/// Whether a `stat` line has the form the kernel gives it: it can be taken apart,
/// and its processor times add up to a number of 64 bits.
pub open spec fn is_sound_stat(stat: Seq<char>) -> bool {
    &&& is_parted_stat(stat)
    &&& match (
        stat_number(stat, PROC_STAT_UTIME as int, u64::MAX as nat),
        stat_number(stat, PROC_STAT_STIME as int, u64::MAX as nat),
    ) {
        (Some(u), Some(s)) => u + s <= u64::MAX,
        _ => true,
    }
}

fn stat_field(stat: &str, n: usize) -> (r: Option<String>)
    requires
        text::last_at(stat@, ')') >= 0 ==> text::last_at(stat@, ')') + 1 < stat@.len(),
    ensures
        r is Some <==> (stat_tail(stat@) matches Some(rest) && n < text::words(rest).len()),
        r matches Some(w) ==> stat_tail(stat@) matches Some(rest) && n < text::words(rest).len()
            && w@ == text::words(rest)[n as int],
{
    match text::rsplit_once(stat, ')') {
        Some((_head, behind)) => {
            proof {
                text::lemma_last_at(stat@, ')');
            }
            let cs = text::chars(&behind);
            let len: usize = cs.len();
            let rest = text::slice(&cs, 1, len);
            assert(rest@ =~= stat@.skip(text::last_at(stat@, ')') + 2));
            let ws = text::split_words(&rest);
            if n < ws.len() {
                assert(text::views(ws@)[n as int] == ws@[n as int]@);
                Some(ws[n].clone())
            } else {
                None
            }
        },
        None => None,
    }
}

/// Whether a `stat` line can be taken apart.
pub fn stat_is_parted(stat: &str) -> (r: bool)
    ensures
        r == is_parted_stat(stat@),
{
    match text::rsplit_once(stat, ')') {
        Some((_head, behind)) => {
            proof {
                text::lemma_last_at(stat@, ')');
            }
            let cs = text::chars(&behind);
            if cs.len() == 0 {
                return false;
            }
            let c: char = cs[0];
            assert(c == stat@[text::last_at(stat@, ')') + 1]);
            c as u32 <= 127
        },
        None => true,
    }
}

/// Whether a `stat` line has the form the kernel gives it.
pub fn stat_is_sound(stat: &str) -> (r: bool)
    ensures
        r == is_sound_stat(stat@),
{
    if !stat_is_parted(stat) {
        return false;
    }
    match (stat_u64(stat, PROC_STAT_UTIME), stat_u64(stat, PROC_STAT_STIME)) {
        (Some(u), Some(s)) => u <= u64::MAX - s,
        _ => true,
    }
}

fn stat_u64(stat: &str, n: usize) -> (r: Option<u64>)
    requires
        text::last_at(stat@, ')') >= 0 ==> text::last_at(stat@, ')') + 1 < stat@.len(),
    ensures
        r is Some <==> stat_number(stat@, n as int, u64::MAX as nat) is Some,
        r matches Some(k) ==> stat_number(stat@, n as int, u64::MAX as nat) == Some(k as nat),
{
    match stat_field(stat, n) {
        Some(w) => text::parse_u64(&w),
        None => None,
    }
}

/// The start time of a process (field 22), from its `stat`.
pub fn read_proc_starttime(stat: &str) -> (r: Option<u64>)
    requires
        is_parted_stat(stat@),
    ensures
        r is Some <==> stat_number(stat@, PROC_STAT_STARTTIME as int, u64::MAX as nat) is Some,
        r matches Some(n) ==> stat_number(stat@, PROC_STAT_STARTTIME as int, u64::MAX as nat)
            == Some(n as nat),
{
    stat_u64(stat, PROC_STAT_STARTTIME)
}

/// The parent of a process (field 4), from its `stat`.
pub fn read_proc_ppid(stat: &str) -> (r: Option<u32>)
    requires
        is_parted_stat(stat@),
    ensures
        r is Some <==> stat_number(stat@, PROC_STAT_PPID as int, u32::MAX as nat) is Some,
        r matches Some(n) ==> stat_number(stat@, PROC_STAT_PPID as int, u32::MAX as nat) == Some(
            n as nat,
        ),
{
    match stat_field(stat, PROC_STAT_PPID) {
        Some(w) => text::parse_u32(&w),
        None => None,
    }
}

/// The processor time a process has used, in ticks: user and system together.
pub open spec fn cpu_ticks(stat: Seq<char>) -> Option<nat> {
    match (
        stat_number(stat, PROC_STAT_UTIME as int, u64::MAX as nat),
        stat_number(stat, PROC_STAT_STIME as int, u64::MAX as nat),
    ) {
        (Some(u), Some(s)) => Some(u + s),
        _ => None,
    }
}

/// Sum of `utime + stime` from `/proc/{pid}/stat`: total CPU ticks consumed.
pub fn read_proc_cpu_ticks(stat: &str) -> (r: Option<u64>)
    requires
        is_sound_stat(stat@),
    ensures
        r is Some <==> cpu_ticks(stat@) is Some,
        r matches Some(n) ==> cpu_ticks(stat@) == Some(n as nat),
{
    match (stat_u64(stat, PROC_STAT_UTIME), stat_u64(stat, PROC_STAT_STIME)) {
        (Some(u), Some(s)) => Some(u + s),
        _ => None,
    }
}

/// How much a process has done so far.
#[derive(Debug, Clone, Copy, PartialEq, Eq, Structural)]
pub struct ProcessSnapshot {
    pub cpu_ticks: u64,
    pub rss_kb: u64,
}

/// What a process has done, from its `stat` and, where that could be read, its
/// `status`.
pub fn read_proc_snapshot(stat: &str, status: Option<&str>) -> (r: Option<ProcessSnapshot>)
    requires
        is_sound_stat(stat@),
    ensures
        r is Some <==> cpu_ticks(stat@) is Some,
        r matches Some(p) ==> cpu_ticks(stat@) == Some(p.cpu_ticks as nat) && p.rss_kb as nat == (
        match status {
            Some(s) => match labelled(s@, "VmRSS:"@, u64::MAX as nat) {
                Some(n) => n,
                None => 0,
            },
            None => 0,
        }),
{
    match read_proc_cpu_ticks(stat) {
        Some(cpu_ticks) => {
            let rss_kb: u64 = match status {
                Some(s) => match read_proc_rss_kb(s) {
                    Some(n) => n,
                    None => 0,
                },
                None => 0,
            };
            Some(ProcessSnapshot { cpu_ticks, rss_kb })
        },
        None => None,
    }
}

// ---------------------------------------------------------------------------
// Sockets
// ---------------------------------------------------------------------------

/// The inode that an entry of `/proc/{pid}/fd` points at, when it is a socket:
/// the number in `socket:[number]`.
pub open spec fn inode_of(target: Seq<char>) -> Option<nat> {
    let head = "socket:["@;
    let rest = target.skip(head.len() as int);
    if head.is_prefix_of(target) && rest.len() > 0 && rest.last() == ']' {
        text::number(rest.drop_last(), u64::MAX as nat)
    } else {
        None
    }
}

/// The inode that a link target names, when it is a socket.
pub fn socket_inode(target: &str) -> (r: Option<u64>)
    ensures
        r is Some <==> inode_of(target@) is Some,
        r matches Some(n) ==> inode_of(target@) == Some(n as nat),
{
    match text::strip_prefix(target, "socket:[") {
        Some(rest) => {
            proof {
                reveal_strlit("]");
                assert("]"@ =~= seq![']']);
                if rest@.len() > 0 {
                    assert(rest@.subrange(rest@.len() - 1, rest@.len() as int) =~= seq![
                        rest@.last(),
                    ]);
                    assert((seq![rest@.last()] == seq![']']) == (rest@.last() == ']')) by {
                        assert(seq![rest@.last()][0] == rest@.last());
                        assert(seq![']'][0] == ']');
                    }
                }
            }
            match text::strip_suffix(&rest, "]") {
                Some(inner) => {
                    assert(inner@ =~= rest@.drop_last());
                    text::parse_u64(&inner)
                },
                None => None,
            }
        },
        None => None,
    }
}

/// Whether one of these link targets is the socket with this inode.
pub open spec fn holds_inode(targets: Seq<Seq<char>>, inode: nat) -> bool {
    exists|i: int| 0 <= i < targets.len() && inode_of(#[trigger] targets[i]) == Some(inode)
}

/// The socket inodes among these link targets, each once.
pub fn socket_inodes_of(targets: &Vec<String>) -> (r: Vec<u64>)
    ensures
        r@.no_duplicates(),
        forall|n: u64| r@.contains(n) <==> holds_inode(text::views(targets@), n as nat),
{
    let ghost ts = text::views(targets@);
    let mut out: Vec<u64> = Vec::new();
    let mut i: usize = 0;
    while i < targets.len()
        invariant
            ts == text::views(targets@),
            i <= targets@.len(),
            out@.no_duplicates(),
            forall|n: u64| #[trigger]
                out@.contains(n) <==> exists|k: int|
                    0 <= k < i && inode_of(#[trigger] ts[k]) == Some(n as nat),
        decreases targets@.len() - i,
    {
        let ghost before = out@;
        assert(ts[i as int] == targets@[i as int]@);
        let found = socket_inode(&targets[i]);
        if let Some(inode) = found {
            if !is_listed(&out, inode) {
                out.push(inode);
            }
        }
        proof {
            assert forall|n: u64| #[trigger]
                out@.contains(n) <==> exists|k: int|
                    0 <= k < i + 1 && inode_of(#[trigger] ts[k]) == Some(n as nat) by {
                if out@.contains(n) {
                    let at = choose|at: int| 0 <= at < out@.len() && out@[at] == n;
                    if at < before.len() {
                        assert(before[at] == n);
                        assert(before.contains(n));
                    } else {
                        assert(inode_of(ts[i as int]) == Some(n as nat));
                    }
                }
                if exists|k: int| 0 <= k < i + 1 && inode_of(#[trigger] ts[k]) == Some(n as nat) {
                    let k = choose|k: int|
                        0 <= k < i + 1 && inode_of(#[trigger] ts[k]) == Some(n as nat);
                    if k < i {
                        assert(before.contains(n));
                        let at = choose|at: int| 0 <= at < before.len() && before[at] == n;
                        assert(out@[at] == n);
                    } else {
                        assert(found == Some(n));
                        if before.contains(n) {
                            assert(out@ == before);
                        } else {
                            assert(out@[before.len() as int] == n);
                        }
                    }
                }
            }
        }
        i = i + 1;
    }
    out
}

/// Whether a row of `/proc/net/*` is a socket with one of these inodes that is
/// bound. In the TCP tables only listening sockets count; UDP has no such state,
/// and every row counts. With `external_only`, a row counts only when its
/// address is reachable from off the host.
pub open spec fn row_counts(
    row: Seq<char>,
    inodes: spec_fn(nat) -> bool,
    listen_only: bool,
    external_only: bool,
) -> bool {
    let ws = text::words(row);
    &&& listen_only ==> PROC_NET_STATE_FIELD < ws.len() && ws[PROC_NET_STATE_FIELD as int]
        == TCP_LISTEN_STATE@
    &&& PROC_NET_INODE_FIELD < ws.len()
    &&& text::number(ws[PROC_NET_INODE_FIELD as int], u64::MAX as nat) matches Some(n) && inodes(n)
    &&& external_only ==> externally_bound(ws[PROC_NET_LOCAL_ADDR_FIELD as int])
}

/// Whether some row of a table counts. The first line is the heading.
pub open spec fn table_counts(
    table: Seq<char>,
    inodes: spec_fn(nat) -> bool,
    listen_only: bool,
    external_only: bool,
) -> bool {
    exists|k: int|
        1 <= k < text::lines(table).len() && row_counts(
            #[trigger] text::lines(table)[k],
            inodes,
            listen_only,
            external_only,
        )
}

/// Whether some table among those of TCP or those of UDP has a row that counts.
pub open spec fn any_bound(
    tcp: Seq<Seq<char>>,
    udp: Seq<Seq<char>>,
    inodes: spec_fn(nat) -> bool,
    external_only: bool,
) -> bool {
    ||| exists|i: int|
        0 <= i < tcp.len() && table_counts(#[trigger] tcp[i], inodes, true, external_only)
    ||| exists|i: int|
        0 <= i < udp.len() && table_counts(#[trigger] udp[i], inodes, false, external_only)
}

pub open spec fn listed(inodes: Seq<u64>) -> spec_fn(nat) -> bool {
    |n: nat| exists|i: int| 0 <= i < inodes.len() && #[trigger] inodes[i] == n
}

fn is_listed(inodes: &Vec<u64>, n: u64) -> (r: bool)
    ensures
        r == listed(inodes@)(n as nat),
{
    let mut i: usize = 0;
    while i < inodes.len()
        invariant
            i <= inodes@.len(),
            forall|j: int| 0 <= j < i ==> #[trigger] inodes@[j] != n,
        decreases inodes@.len() - i,
    {
        if inodes[i] == n {
            return true;
        }
        i = i + 1;
    }
    false
}

fn row_is_bound(row: &str, inodes: &Vec<u64>, listen_only: bool, external_only: bool) -> (r: bool)
    ensures
        r == row_counts(row@, listed(inodes@), listen_only, external_only),
{
    let ws = text::split_words(row);
    let ghost vs = text::views(ws@);
    if listen_only {
        if ws.len() <= PROC_NET_STATE_FIELD {
            return false;
        }
        assert(vs[PROC_NET_STATE_FIELD as int] == ws@[PROC_NET_STATE_FIELD as int]@);
        if !text::same(&ws[PROC_NET_STATE_FIELD], TCP_LISTEN_STATE) {
            return false;
        }
    }
    if ws.len() <= PROC_NET_INODE_FIELD {
        return false;
    }
    assert(vs[PROC_NET_INODE_FIELD as int] == ws@[PROC_NET_INODE_FIELD as int]@);
    match text::parse_u64(&ws[PROC_NET_INODE_FIELD]) {
        None => false,
        Some(inode) => {
            assert(vs[PROC_NET_LOCAL_ADDR_FIELD as int] == ws@[PROC_NET_LOCAL_ADDR_FIELD as int]@);
            is_listed(inodes, inode) && (!external_only || is_externally_bound(
                &ws[PROC_NET_LOCAL_ADDR_FIELD],
            ))
        },
    }
}

fn table_is_bound(
    table: &str,
    inodes: &Vec<u64>,
    listen_only: bool,
    external_only: bool,
) -> (r: bool)
    ensures
        r == table_counts(table@, listed(inodes@), listen_only, external_only),
{
    let ls = text::split_lines(table);
    let ghost vs = text::views(ls@);
    let mut k: usize = 1;
    while k < ls.len()
        invariant
            vs == text::views(ls@),
            vs == text::lines(table@),
            1 <= k,
            forall|j: int|
                1 <= j < k && j < ls@.len() ==> !row_counts(
                    #[trigger] vs[j],
                    listed(inodes@),
                    listen_only,
                    external_only,
                ),
        decreases ls@.len() - k,
    {
        assert(vs[k as int] == ls@[k as int]@);
        if row_is_bound(&ls[k], inodes, listen_only, external_only) {
            return true;
        }
        k = k + 1;
    }
    false
}

fn tables_are_bound(
    tables: &Vec<String>,
    inodes: &Vec<u64>,
    listen_only: bool,
    external_only: bool,
) -> (r: bool)
    ensures
        r == exists|i: int|
            0 <= i < tables@.len() && table_counts(
                #[trigger] text::views(tables@)[i],
                listed(inodes@),
                listen_only,
                external_only,
            ),
{
    let ghost ts = text::views(tables@);
    let mut i: usize = 0;
    while i < tables.len()
        invariant
            ts == text::views(tables@),
            i <= tables@.len(),
            forall|j: int|
                0 <= j < i ==> !table_counts(
                    #[trigger] ts[j],
                    listed(inodes@),
                    listen_only,
                    external_only,
                ),
        decreases tables@.len() - i,
    {
        assert(ts[i as int] == tables@[i as int]@);
        if table_is_bound(&tables[i], inodes, listen_only, external_only) {
            return true;
        }
        i = i + 1;
    }
    false
}

/// Whether any of `inodes` is a listening or bound network socket, going by the
/// tables that could be read.
///
/// With `external_only`, loopback binds are ignored: an app is free to talk to
/// itself, and only a port reachable from off the host bypasses the proxy.
pub fn socket_inodes_are_bound(
    inodes: &Vec<u64>,
    tcp: &Vec<String>,
    udp: &Vec<String>,
    external_only: bool,
) -> (r: bool)
    ensures
        r == any_bound(text::views(tcp@), text::views(udp@), listed(inodes@), external_only),
{
    tables_are_bound(tcp, inodes, true, external_only) || tables_are_bound(
        udp,
        inodes,
        false,
        external_only,
    )
}

/// Whether the processes whose open files point at `targets` hold a socket in
/// these tables.
pub open spec fn listens(
    targets: Seq<Seq<char>>,
    tcp: Seq<Seq<char>>,
    udp: Seq<Seq<char>>,
    external_only: bool,
) -> bool {
    any_bound(tcp, udp, |n: nat| holds_inode(targets, n), external_only)
}

proof fn lemma_same_rows(
    tcp: Seq<Seq<char>>,
    udp: Seq<Seq<char>>,
    a: spec_fn(nat) -> bool,
    b: spec_fn(nat) -> bool,
    external_only: bool,
)
    requires
        forall|n: nat| n <= u64::MAX ==> #[trigger] a(n) == b(n),
        any_bound(tcp, udp, a, external_only),
    ensures
        any_bound(tcp, udp, b, external_only),
{
    if exists|i: int| 0 <= i < tcp.len() && table_counts(#[trigger] tcp[i], a, true, external_only) {
        let i = choose|i: int|
            0 <= i < tcp.len() && table_counts(#[trigger] tcp[i], a, true, external_only);
        let k = choose|k: int|
            1 <= k < text::lines(tcp[i]).len() && row_counts(
                #[trigger] text::lines(tcp[i])[k],
                a,
                true,
                external_only,
            );
        assert(row_counts(text::lines(tcp[i])[k], b, true, external_only));
        assert(table_counts(tcp[i], b, true, external_only));
    } else {
        let i = choose|i: int|
            0 <= i < udp.len() && table_counts(#[trigger] udp[i], a, false, external_only);
        let k = choose|k: int|
            1 <= k < text::lines(udp[i]).len() && row_counts(
                #[trigger] text::lines(udp[i])[k],
                a,
                false,
                external_only,
            );
        assert(row_counts(text::lines(udp[i])[k], b, false, external_only));
        assert(table_counts(udp[i], b, false, external_only));
    }
}

fn holds_bound_socket(
    targets: &Vec<String>,
    tcp: &Vec<String>,
    udp: &Vec<String>,
    external_only: bool,
) -> (r: bool)
    ensures
        r == listens(text::views(targets@), text::views(tcp@), text::views(udp@), external_only),
{
    let inodes = socket_inodes_of(targets);
    let ghost held = |n: nat| holds_inode(text::views(targets@), n);
    let r = inodes.len() > 0 && socket_inodes_are_bound(&inodes, tcp, udp, external_only);
    proof {
        assert forall|n: nat| n <= u64::MAX implies #[trigger] listed(inodes@)(n) == held(n) by {
            let m = n as u64;
            assert(inodes@.contains(m) <==> holds_inode(text::views(targets@), n));
            if listed(inodes@)(n) {
                let i = choose|i: int| 0 <= i < inodes@.len() && #[trigger] inodes@[i] == n;
                assert(inodes@[i] == m);
                assert(inodes@.contains(m));
            }
        }
        let (tv, uv) = (text::views(tcp@), text::views(udp@));
        if any_bound(tv, uv, held, external_only) {
            lemma_same_rows(tv, uv, held, listed(inodes@), external_only);
            assert(inodes@.len() > 0) by {
                if inodes@.len() == 0 {
                    lemma_nothing_listed(tv, uv, inodes@, external_only);
                }
            }
        }
        if any_bound(tv, uv, listed(inodes@), external_only) {
            lemma_same_rows(tv, uv, listed(inodes@), held, external_only);
        }
    }
    r
}

proof fn lemma_nothing_listed(
    tcp: Seq<Seq<char>>,
    udp: Seq<Seq<char>>,
    inodes: Seq<u64>,
    external_only: bool,
)
    requires
        inodes.len() == 0,
    ensures
        !any_bound(tcp, udp, listed(inodes), external_only),
{
}

/// Whether the processes whose open files point at `targets` are bound to a
/// port reachable from off the host.
///
/// The targets of every process of an app matter: the loader that blocks
/// `listen()` only covers the app's own process, so a child spawned without it
/// can bind freely.
pub fn has_external_listen(targets: &Vec<String>, tcp: &Vec<String>, udp: &Vec<String>) -> (r: bool)
    ensures
        r == listens(text::views(targets@), text::views(tcp@), text::views(udp@), true),
{
    holds_bound_socket(targets, tcp, udp, true)
}

/// Whether the process whose open files point at `targets` is bound to any
/// TCP or UDP port, loopback included.
pub fn has_network_listen(targets: &Vec<String>, tcp: &Vec<String>, udp: &Vec<String>) -> (r: bool)
    ensures
        r == listens(text::views(targets@), text::views(tcp@), text::views(udp@), false),
{
    holds_bound_socket(targets, tcp, udp, false)
}

/// A port that is reachable from off the host is a port.
pub proof fn law_external_is_bound(
    targets: Seq<Seq<char>>,
    tcp: Seq<Seq<char>>,
    udp: Seq<Seq<char>>,
)
    requires
        listens(targets, tcp, udp, true),
    ensures
        listens(targets, tcp, udp, false),
{
    let held = |n: nat| holds_inode(targets, n);
    if exists|i: int| 0 <= i < tcp.len() && table_counts(#[trigger] tcp[i], held, true, true) {
        let i = choose|i: int|
            0 <= i < tcp.len() && table_counts(#[trigger] tcp[i], held, true, true);
        let k = choose|k: int|
            1 <= k < text::lines(tcp[i]).len() && row_counts(
                #[trigger] text::lines(tcp[i])[k],
                held,
                true,
                true,
            );
        assert(row_counts(text::lines(tcp[i])[k], held, true, false));
        assert(table_counts(tcp[i], held, true, false));
    } else {
        let i = choose|i: int|
            0 <= i < udp.len() && table_counts(#[trigger] udp[i], held, false, true);
        let k = choose|k: int|
            1 <= k < text::lines(udp[i]).len() && row_counts(
                #[trigger] text::lines(udp[i])[k],
                held,
                false,
                true,
            );
        assert(row_counts(text::lines(udp[i])[k], held, false, false));
        assert(table_counts(udp[i], held, false, false));
    }
}

// ---------------------------------------------------------------------------
// Process trees
// ---------------------------------------------------------------------------

/// A process and its parent.
#[derive(Debug, Clone, Copy, PartialEq, Eq, Structural)]
pub struct ParentLink {
    pub pid: u32,
    pub parent: u32,
}

/// Whether `child` is a child of `parent`.
pub open spec fn is_child(links: Seq<ParentLink>, child: u32, parent: u32) -> bool {
    exists|i: int|
        0 <= i < links.len() && (#[trigger] links[i]).pid == child && links[i].parent == parent
}

/// Whether `pid` comes after `root` in at most `n` generations.
pub open spec fn descends(links: Seq<ParentLink>, root: u32, pid: u32, n: nat) -> bool
    decreases n,
{
    n > 0 && (is_child(links, pid, root) || exists|mid: u32|
        #[trigger] is_child(links, pid, mid) && descends(links, root, mid, (n - 1) as nat))
}

/// Whether `pid` is a child of `root`, or a child of a child, and so on.
pub open spec fn is_descendant(links: Seq<ParentLink>, root: u32, pid: u32) -> bool {
    exists|n: nat| descends(links, root, pid, n)
}

proof fn lemma_child_of_descendant(links: Seq<ParentLink>, root: u32, mid: u32, pid: u32)
    requires
        is_child(links, pid, mid),
        mid == root || is_descendant(links, root, mid),
    ensures
        is_descendant(links, root, pid),
{
    if mid == root {
        assert(descends(links, root, pid, 1));
    } else {
        let n = choose|n: nat| descends(links, root, mid, n);
        assert(descends(links, root, pid, n + 1));
    }
}

proof fn lemma_closed_under_children(links: Seq<ParentLink>, root: u32, out: Seq<u32>, pid: u32, n: nat)
    requires
        descends(links, root, pid, n),
        forall|c: u32, p: u32|
            (p == root || out.contains(p)) && #[trigger] is_child(links, c, p) ==> out.contains(c),
    ensures
        out.contains(pid),
    decreases n,
{
    if !is_child(links, pid, root) {
        let mid = choose|mid: u32|
            #[trigger] is_child(links, pid, mid) && descends(links, root, mid, (n - 1) as nat);
        lemma_closed_under_children(links, root, out, mid, (n - 1) as nat);
    }
}

fn contains_pid(v: &Vec<u32>, pid: u32) -> (r: bool)
    ensures
        r == v@.contains(pid),
{
    let mut i: usize = 0;
    while i < v.len()
        invariant
            i <= v@.len(),
            forall|j: int| 0 <= j < i ==> v@[j] != pid,
        decreases v@.len() - i,
    {
        if v[i] == pid {
            return true;
        }
        i = i + 1;
    }
    false
}

proof fn lemma_distinct_children_fit(links: Seq<ParentLink>, out: Seq<u32>)
    requires
        out.no_duplicates(),
        forall|c: u32| #[trigger] out.contains(c) ==> exists|i: int|
            0 <= i < links.len() && (#[trigger] links[i]).pid == c,
    ensures
        out.len() <= links.len(),
{
    let pids = Seq::new(links.len(), |i: int| links[i].pid);
    out.unique_seq_to_set();
    assert(out.to_set().subset_of(pids.to_set())) by {
        assert forall|c: u32| out.to_set().contains(c) implies pids.to_set().contains(c) by {
            assert(out.contains(c));
            let i = choose|i: int| 0 <= i < links.len() && (#[trigger] links[i]).pid == c;
            assert(pids[i] == c);
        }
    }
    pids.lemma_cardinality_of_set();
    vstd::set_lib::lemma_len_subset(out.to_set(), pids.to_set());
}

/// Every descendant of `pid` among the processes that `links` describes, each
/// once.
///
/// A sandboxed app sits under a bwrap process, and bwrap does not pass signals
/// on to it, so stopping the app means signalling the children too.
pub fn descendants_of(pid: u32, links: &Vec<ParentLink>) -> (out: Vec<u32>)
    ensures
        out@.no_duplicates(),
        forall|c: u32| out@.contains(c) <==> is_descendant(links@, pid, c),
{
    let ghost ls = links@;
    let mut out: Vec<u32> = Vec::new();
    let mut queue: Vec<u32> = Vec::new();
    queue.push(pid);
    assert(queue@[0] == pid);
    while queue.len() > 0
        invariant
            ls == links@,
            out@.no_duplicates(),
            forall|c: u32| #[trigger] out@.contains(c) ==> is_descendant(ls, pid, c),
            forall|c: u32| #[trigger] out@.contains(c) ==> exists|i: int|
                0 <= i < ls.len() && (#[trigger] ls[i]).pid == c,
            forall|p: u32| #[trigger] queue@.contains(p) ==> p == pid || out@.contains(p),
            forall|c: u32, p: u32|
                (p == pid || out@.contains(p)) && !queue@.contains(p) && #[trigger] is_child(
                    ls,
                    c,
                    p,
                ) ==> out@.contains(c),
            out@.len() <= ls.len(),
        decreases ls.len() - out@.len(), queue@.len(),
    {
        let ghost queue0 = queue@;
        let ghost out0 = out@;
        let last: usize = queue.len() - 1;
        let p: u32 = queue[last];
        queue.pop();
        assert(queue0.contains(p)) by {
            assert(queue0[last as int] == p);
        }
        let mut i: usize = 0;
        assert forall|x: u32| #[trigger] queue@.contains(x) implies x == pid || out@.contains(x) by {
            let k = choose|k: int| 0 <= k < queue@.len() && queue@[k] == x;
            assert(queue0[k] == x);
            assert(queue0.contains(x));
        }
        assert forall|x: u32| #[trigger] queue0.contains(x) implies x == p || queue@.contains(x) by {
            let k = choose|k: int| 0 <= k < queue0.len() && queue0[k] == x;
            if k < last {
                assert(queue@[k] == x);
            }
        }
        while i < links.len()
            invariant
                ls == links@,
                i <= ls.len(),
                out@.no_duplicates(),
                p == pid || out@.contains(p),
                p == pid || out0.contains(p),
                forall|c: u32| #[trigger] out0.contains(c) ==> out@.contains(c),
                forall|c: u32| #[trigger] out@.contains(c) ==> is_descendant(ls, pid, c),
                forall|c: u32| #[trigger] out@.contains(c) ==> exists|k: int|
                    0 <= k < ls.len() && (#[trigger] ls[k]).pid == c,
                forall|x: u32| #[trigger] queue@.contains(x) ==> x == pid || out@.contains(x),
                forall|x: u32| #[trigger] queue0.contains(x) ==> x == p || queue@.contains(x),
                forall|x: u32| #[trigger]
                    out@.contains(x) ==> out0.contains(x) || queue@.contains(x),
                forall|c: u32, q: u32|
                    (q == pid || out0.contains(q)) && !queue0.contains(q) && #[trigger] is_child(
                        ls,
                        c,
                        q,
                    ) ==> out0.contains(c),
                forall|k: int|
                    0 <= k < i && (#[trigger] ls[k]).parent == p ==> out@.contains(ls[k].pid),
                out@.len() <= ls.len(),
                out@.len() >= out0.len(),
                out@.len() == out0.len() ==> queue@.len() < queue0.len(),
            decreases ls.len() - i,
        {
            let link: ParentLink = links[i];
            if link.parent == p && !contains_pid(&out, link.pid) {
                let ghost out1 = out@;
                let ghost queue1 = queue@;
                proof {
                    assert(ls[i as int].pid == link.pid);
                    assert(is_child(ls, link.pid, p));
                    lemma_child_of_descendant(ls, pid, p, link.pid);
                }
                out.push(link.pid);
                queue.push(link.pid);
                proof {
                    assert forall|c: u32| #[trigger] out@.contains(c) implies out1.contains(c) || c
                        == link.pid by {
                        let k = choose|k: int| 0 <= k < out@.len() && out@[k] == c;
                        if k < out1.len() {
                            assert(out1[k] == c);
                        }
                    }
                    assert forall|c: u32| #[trigger] out1.contains(c) implies out@.contains(c) by {
                        let k = choose|k: int| 0 <= k < out1.len() && out1[k] == c;
                        assert(out@[k] == c);
                    }
                    assert(out@[out1.len() as int] == link.pid);
                    assert forall|c: u32| #[trigger] queue@.contains(c) implies queue1.contains(c)
                        || c == link.pid by {
                        let k = choose|k: int| 0 <= k < queue@.len() && queue@[k] == c;
                        if k < queue1.len() {
                            assert(queue1[k] == c);
                        }
                    }
                    assert forall|c: u32| #[trigger] queue1.contains(c) implies queue@.contains(
                        c,
                    ) by {
                        let k = choose|k: int| 0 <= k < queue1.len() && queue1[k] == c;
                        assert(queue@[k] == c);
                    }
                    assert(queue@[queue1.len() as int] == link.pid);
                    lemma_distinct_children_fit(ls, out@);
                }
            }
            i = i + 1;
        }
        proof {
            assert forall|c: u32, q: u32|
                (q == pid || out@.contains(q)) && !queue@.contains(q) && #[trigger] is_child(
                    ls,
                    c,
                    q,
                ) implies out@.contains(c) by {
                let k = choose|k: int|
                    0 <= k < ls.len() && (#[trigger] ls[k]).pid == c && ls[k].parent == q;
                if q == p {
                    assert(out@.contains(ls[k].pid));
                } else {
                    if q != pid {
                        assert(out0.contains(q));
                    }
                    assert(!queue0.contains(q));
                    assert(out0.contains(c));
                }
            }
        }
    }
    proof {
        assert forall|c: u32| out@.contains(c) <==> is_descendant(links@, pid, c) by {
            if is_descendant(ls, pid, c) {
                let n = choose|n: nat| descends(ls, pid, c, n);
                lemma_closed_under_children(ls, pid, out@, c, n);
            }
        }
    }
    out
}

// ---------------------------------------------------------------------------
// What the tables say
// ---------------------------------------------------------------------------

/// A link names a socket by its inode, and no other link names one.
pub proof fn law_socket_links_name_their_inode(target: Seq<char>, d: Seq<char>)
    ensures
        inode_of("socket:["@ + d + "]"@) == text::number(d, u64::MAX as nat),
        inode_of(target) is Some ==> exists|k: Seq<char>|
            target == #[trigger] ("socket:["@ + k + "]"@),
{
    let head = "socket:["@;
    reveal_strlit("socket:[");
    reveal_strlit("]");
    assert("]"@ =~= seq![']']);
    let t = head + d + "]"@;
    assert(head.is_prefix_of(t));
    assert(t.skip(head.len() as int) =~= d.push(']'));
    assert(d.push(']').drop_last() =~= d);
    if inode_of(target) is Some {
        let rest = target.skip(head.len() as int);
        let k = rest.drop_last();
        assert(target =~= head + k + "]"@) by {
            assert forall|i: int| 0 <= i < target.len() implies target[i] == (head + k + "]"@)[i] by {
                if i < head.len() {
                    assert(target.take(head.len() as int)[i] == head[i]);
                }
            }
        }
    }
}

/// The address of a socket is reachable from off the host unless it is loopback:
/// 127.x in IPv4, where the first octet comes last; `::1` in IPv6, or 127.x
/// mapped into it. What is no address is not reachable.
pub proof fn law_only_loopback_is_near(addr: Seq<char>, port: Seq<char>)
    requires
        forall|i: int| 0 <= i < addr.len() ==> '\0' <= #[trigger] addr[i] <= '\x7f',
        !port.contains(':'),
    ensures
        ({
            let far = externally_bound(addr.push(':') + port);
            let low = text::lower(addr);
            &&& addr.len() == 8 ==> far == !(addr[6] == '7' && (addr[7] == 'f' || addr[7] == 'F'))
            &&& addr.len() == 32 ==> far == !(low == "00000000000000000000000001000000"@
                || (low.subrange(16, 24) == "ffff0000"@ && low.subrange(30, 32) == "7f"@))
            &&& addr.len() != 8 && addr.len() != 32 ==> !far
        }),
        !externally_bound(port),
{
    text::law_cut_last_is_at_the_last(addr, ':', port);
    lemma_ascii_bytes(addr);
    let b = vstd::utf8::encode_utf8(addr);
    let low = text::lower(addr);
    reveal_strlit("7f");
    reveal_strlit("ffff0000");
    reveal_strlit("00000000000000000000000001000000");
    assert forall|i: int| 0 <= i < addr.len() implies #[trigger] lower_byte(b[i]) == low[i] as u8
        && '\0' <= low[i] <= '\x7f' by {
        assert(b[i] == addr[i] as u8);
        text::law_lower_case_moves_capitals(addr, i);
    }
    if addr.len() == 8 {
        if reads(b, 6, "7f"@) {
            assert(lower_byte(b[6]) == "7f"@[0] as u8);
            assert(lower_byte(b[7]) == "7f"@[1] as u8);
        }
        if addr[6] == '7' && (addr[7] == 'f' || addr[7] == 'F') {
            assert(b[6] == addr[6] as u8 && b[7] == addr[7] as u8);
            assert forall|i: int| 0 <= i < "7f"@.len() implies lower_byte(b[6 + i])
                == #[trigger] "7f"@[i] as u8 by {
                assert(i == 0 || i == 1);
            }
        }
    } else if addr.len() == 32 {
        lemma_reads(b, low, 0, V6_LOOPBACK@);
        assert(low.subrange(0, 32) =~= low);
        lemma_reads(b, low, 16, "ffff0000"@);
        lemma_reads(b, low, 30, "7f"@);
    }
}

proof fn lemma_ascii_bytes(s: Seq<char>)
    requires
        forall|i: int| 0 <= i < s.len() ==> '\0' <= #[trigger] s[i] <= '\x7f',
    ensures
        vstd::utf8::encode_utf8(s).len() == s.len(),
        forall|i: int|
            0 <= i < s.len() ==> #[trigger] vstd::utf8::encode_utf8(s)[i] == s[i] as u8,
{
    assert(vstd::utf8::is_ascii_chars(s));
    vstd::utf8::is_ascii_chars_encode_utf8(s);
}

proof fn lemma_reads(b: Seq<u8>, low: Seq<char>, at: int, p: Seq<char>)
    requires
        0 <= at,
        at + p.len() <= low.len(),
        b.len() == low.len(),
        forall|i: int|
            0 <= i < low.len() ==> #[trigger] lower_byte(b[i]) == low[i] as u8 && '\0' <= low[i]
                <= '\x7f',
        forall|i: int| 0 <= i < p.len() ==> '\0' <= #[trigger] p[i] <= '\x7f',
    ensures
        reads(b, at, p) <==> low.subrange(at, at + p.len()) == p,
{
    let part = low.subrange(at, at + p.len());
    if reads(b, at, p) {
        assert forall|i: int| 0 <= i < p.len() implies part[i] == p[i] by {
            assert(lower_byte(b[at + i]) == p[i] as u8);
            assert(lower_byte(b[at + i]) == low[at + i] as u8);
            assert(part[i] == low[at + i]);
            assert('\0' <= p[i] <= '\x7f' && '\0' <= low[at + i] <= '\x7f');
        }
        assert(part =~= p);
    }
    if part == p {
        assert forall|i: int| 0 <= i < p.len() implies lower_byte(b[at + i]) == #[trigger] p[i] as u8 by {
            assert(part[i] == low[at + i]);
            assert(lower_byte(b[at + i]) == low[at + i] as u8);
        }
    }
}

proof fn lemma_row_is_read(
    heading: Seq<char>,
    above: Seq<char>,
    row: Seq<char>,
    below: Seq<char>,
)
    requires
        !heading.contains('\n'),
        above.len() > 0 ==> above.last() == '\n',
        !row.contains('\n'),
        row.len() > 0 ==> row.last() != '\r',
    ensures
        ({
            let ls = text::lines(heading.push('\n') + above + row.push('\n') + below);
            let k = 1 + text::lines(above).len();
            1 <= k < ls.len() && ls[k as int] == row
        }),
{
    let rest = row.push('\n') + below;
    let table = heading.push('\n') + above + row.push('\n') + below;
    assert(table =~= heading.push('\n') + (above + rest));
    text::law_line_ends_at_its_feed(heading, above + rest);
    text::law_lines_of_parts(above, rest);
    text::law_line_ends_at_its_feed(row, below);
}

/// A socket that the processes hold and that stands in a UDP table is a bound
/// port, whatever the state in its row says: UDP has no listening state. It is
/// reachable from off the host where its address is.
pub proof fn law_udp_sockets_are_ports(
    targets: Seq<Seq<char>>,
    t: int,
    n: nat,
    tcp: Seq<Seq<char>>,
    udp: Seq<Seq<char>>,
    i: int,
    heading: Seq<char>,
    above: Seq<char>,
    row: Seq<char>,
    below: Seq<char>,
    external_only: bool,
)
    requires
        0 <= t < targets.len(),
        targets[t] == "socket:["@ + text::decimal(n) + "]"@,
        n <= u64::MAX,
        0 <= i < udp.len(),
        udp[i] == heading.push('\n') + above + row.push('\n') + below,
        !heading.contains('\n'),
        above.len() > 0 ==> above.last() == '\n',
        !row.contains('\n'),
        row.len() > 0 ==> row.last() != '\r',
        text::words(row).len() >= 10,
        text::words(row)[9] == text::decimal(n),
        external_only ==> externally_bound(text::words(row)[1]),
    ensures
        listens(targets, tcp, udp, external_only),
{
    text::law_numbers_read_back(n, u64::MAX as nat);
    law_socket_links_name_their_inode(targets[t], text::decimal(n));
    lemma_row_is_read(heading, above, row, below);
    let held = |m: nat| holds_inode(targets, m);
    assert(held(n));
    let k = 1 + text::lines(above).len();
    assert(row_counts(text::lines(udp[i])[k as int], held, false, external_only));
    assert(table_counts(udp[i], held, false, external_only));
}

/// A socket that the processes hold and that listens according to a TCP table is
/// a bound port, and reachable from off the host where its address is.
pub proof fn law_listening_tcp_sockets_are_ports(
    targets: Seq<Seq<char>>,
    t: int,
    n: nat,
    tcp: Seq<Seq<char>>,
    udp: Seq<Seq<char>>,
    i: int,
    heading: Seq<char>,
    above: Seq<char>,
    row: Seq<char>,
    below: Seq<char>,
    external_only: bool,
)
    requires
        0 <= t < targets.len(),
        targets[t] == "socket:["@ + text::decimal(n) + "]"@,
        n <= u64::MAX,
        0 <= i < tcp.len(),
        tcp[i] == heading.push('\n') + above + row.push('\n') + below,
        !heading.contains('\n'),
        above.len() > 0 ==> above.last() == '\n',
        !row.contains('\n'),
        row.len() > 0 ==> row.last() != '\r',
        text::words(row).len() >= 10,
        text::words(row)[9] == text::decimal(n),
        text::words(row)[3] == "0A"@,
        external_only ==> externally_bound(text::words(row)[1]),
    ensures
        listens(targets, tcp, udp, external_only),
{
    text::law_numbers_read_back(n, u64::MAX as nat);
    law_socket_links_name_their_inode(targets[t], text::decimal(n));
    lemma_row_is_read(heading, above, row, below);
    let held = |m: nat| holds_inode(targets, m);
    assert(held(n));
    let k = 1 + text::lines(above).len();
    assert(row_counts(text::lines(tcp[i])[k as int], held, true, external_only));
    assert(table_counts(tcp[i], held, true, external_only));
}

/// Nothing else is a port: where one is found, a row behind the heading of some
/// table has the inode of a socket that the processes hold, listens if it is a
/// TCP row, and has an address that is reachable if that was asked for.
pub proof fn law_nothing_else_is_a_port(
    targets: Seq<Seq<char>>,
    tcp: Seq<Seq<char>>,
    udp: Seq<Seq<char>>,
    external_only: bool,
)
    requires
        listens(targets, tcp, udp, external_only),
    ensures
        exists|table: Seq<char>, k: int, t: int|
            {
                let ws = text::words(#[trigger] text::lines(table)[k]);
                &&& 1 <= k < text::lines(table).len()
                &&& udp.contains(table) || (tcp.contains(table) && ws.len() > 3 && ws[3] == "0A"@)
                &&& 0 <= t < targets.len()
                &&& ws.len() >= 10
                &&& text::number(ws[9], u64::MAX as nat) is Some
                &&& inode_of(#[trigger] targets[t]) == text::number(ws[9], u64::MAX as nat)
                &&& external_only ==> externally_bound(ws[1])
            },
{
    let held = |m: nat| holds_inode(targets, m);
    let (table, listen) = if exists|i: int|
        0 <= i < tcp.len() && table_counts(#[trigger] tcp[i], held, true, external_only) {
        let i = choose|i: int|
            0 <= i < tcp.len() && table_counts(#[trigger] tcp[i], held, true, external_only);
        assert(tcp.contains(tcp[i]));
        (tcp[i], true)
    } else {
        let i = choose|i: int|
            0 <= i < udp.len() && table_counts(#[trigger] udp[i], held, false, external_only);
        assert(udp.contains(udp[i]));
        (udp[i], false)
    };
    let k = choose|k: int|
        1 <= k < text::lines(table).len() && row_counts(
            #[trigger] text::lines(table)[k],
            held,
            listen,
            external_only,
        );
    let ws = text::words(text::lines(table)[k]);
    let n = text::number(ws[9], u64::MAX as nat)->0;
    assert(held(n));
    let t = choose|t: int| 0 <= t < targets.len() && inode_of(#[trigger] targets[t]) == Some(n);
    assert(inode_of(targets[t]) == text::number(ws[9], u64::MAX as nat));
}

/// The fields of a `stat` line are counted behind the last parenthesis, whatever
/// the command is called: the parent is the second, the processor times are the
/// twelfth and the thirteenth, and the start time is the twentieth.
pub proof fn law_stat_fields_stand_behind_the_name(head: Seq<char>, sep: char, rest: Seq<char>)
    requires
        !rest.contains(')'),
        sep != ')',
    ensures
        ({
            let stat = head.push(')').push(sep) + rest;
            let ws = text::words(rest);
            &&& ws.len() > 1 ==> stat_number(stat, PROC_STAT_PPID as int, u32::MAX as nat)
                == text::number(ws[1], u32::MAX as nat)
            &&& ws.len() > 19 ==> stat_number(stat, PROC_STAT_STARTTIME as int, u64::MAX as nat)
                == text::number(ws[19], u64::MAX as nat)
            &&& ws.len() <= 19 ==> stat_number(stat, PROC_STAT_STARTTIME as int, u64::MAX as nat) is None
            &&& ws.len() > 12 ==> cpu_ticks(stat) == (match (
                text::number(ws[11], u64::MAX as nat),
                text::number(ws[12], u64::MAX as nat),
            ) {
                (Some(u), Some(s)) => Some(u + s),
                _ => None,
            })
        }),
{
    let stat = head.push(')').push(sep) + rest;
    let tail = seq![sep] + rest;
    assert(stat =~= head.push(')') + tail);
    assert forall|i: int| 0 <= i < tail.len() implies tail[i] != ')' by {
        if i > 0 {
            assert(tail[i] == rest[i - 1]);
            assert(rest.contains(rest[i - 1]));
        }
    }
    text::law_cut_last_is_at_the_last(head, ')', tail);
    text::lemma_last_at(stat, ')');
    assert(stat[head.len() as int] == ')');
    assert(text::last_at(stat, ')') == head.len()) by {
        let i = text::last_at(stat, ')');
        if i > head.len() {
            assert(stat[i] == tail[i - head.len() - 1]);
        }
    }
    assert(stat.skip((head.len() + 2) as int) =~= rest);
}

/// A label is looked for in the first line that begins with it, and its number is
/// the first word behind it.
pub proof fn law_first_labelled_line_counts(
    above: Seq<char>,
    label: Seq<char>,
    rest: Seq<char>,
    below: Seq<char>,
    max: nat,
)
    requires
        above.len() > 0 ==> above.last() == '\n',
        forall|i: int|
            0 <= i < text::lines(above).len() ==> !label.is_prefix_of(
                #[trigger] text::lines(above)[i],
            ),
        !(label + rest).contains('\n'),
        (label + rest).len() > 0 ==> (label + rest).last() != '\r',
    ensures
        labelled(above + (label + rest).push('\n') + below, label, max) == (if text::words(
            rest,
        ).len() > 0 {
            text::number(text::words(rest)[0], max)
        } else {
            None
        }),
        first_after(text::lines(above + (label + rest).push('\n') + below), label) == Some(rest),
{
    let line = label + rest;
    let all = above + line.push('\n') + below;
    assert(all =~= above + (line.push('\n') + below));
    text::law_lines_of_parts(above, line.push('\n') + below);
    text::law_line_ends_at_its_feed(line, below);
    assert(label.is_prefix_of(line)) by {
        assert(line.take(label.len() as int) =~= label);
    }
    assert(line.skip(label.len() as int) =~= rest);
    lemma_first_after(text::lines(above), line, text::lines(below), label);
    assert(text::lines(all) =~= text::lines(above) + (seq![line] + text::lines(below)));
}

/// The first line that begins with the label is the one that counts.
pub proof fn lemma_first_after(
    before: Seq<Seq<char>>,
    line: Seq<char>,
    behind: Seq<Seq<char>>,
    label: Seq<char>,
)
    requires
        forall|i: int| 0 <= i < before.len() ==> !label.is_prefix_of(#[trigger] before[i]),
        label.is_prefix_of(line),
    ensures
        first_after(before + (seq![line] + behind), label) == Some(line.skip(label.len() as int)),
    decreases before.len(),
{
    let all = before + (seq![line] + behind);
    if before.len() == 0 {
        assert(all[0] == line);
    } else {
        assert(all[0] == before[0]);
        let rest = before.skip(1);
        assert forall|i: int| 0 <= i < rest.len() implies !label.is_prefix_of(#[trigger] rest[i]) by {
            assert(rest[i] == before[i + 1]);
        }
        lemma_first_after(rest, line, behind, label);
        assert(all.skip(1) =~= rest + (seq![line] + behind));
    }
}

/// The descendants of a process are its children, their children, and so on, and
/// no others: whatever holds of the children of the root, and of the children of
/// those of which it holds, holds of every descendant.
pub proof fn law_descendants_are_children_of_children(
    links: Seq<ParentLink>,
    root: u32,
    pid: u32,
    i: int,
    p: spec_fn(u32) -> bool,
)
    ensures
        0 <= i < links.len() && (links[i].parent == root || is_descendant(
            links,
            root,
            links[i].parent,
        )) ==> is_descendant(links, root, links[i].pid),
        (forall|j: int|
            0 <= j < links.len() && ((#[trigger] links[j]).parent == root || p(links[j].parent))
                ==> p(links[j].pid)) && is_descendant(links, root, pid) ==> p(pid),
{
    if 0 <= i < links.len() && (links[i].parent == root || is_descendant(
        links,
        root,
        links[i].parent,
    )) {
        assert(is_child(links, links[i].pid, links[i].parent));
        lemma_child_of_descendant(links, root, links[i].parent, links[i].pid);
    }
    if (forall|j: int|
        0 <= j < links.len() && ((#[trigger] links[j]).parent == root || p(links[j].parent))
            ==> p(links[j].pid)) && is_descendant(links, root, pid) {
        let n = choose|n: nat| descends(links, root, pid, n);
        lemma_descent(links, root, pid, n, p);
    }
}

proof fn lemma_descent(
    links: Seq<ParentLink>,
    root: u32,
    pid: u32,
    n: nat,
    p: spec_fn(u32) -> bool,
)
    requires
        descends(links, root, pid, n),
        forall|j: int|
            0 <= j < links.len() && ((#[trigger] links[j]).parent == root || p(links[j].parent))
                ==> p(links[j].pid),
    ensures
        p(pid),
    decreases n,
{
    if is_child(links, pid, root) {
        let j = choose|j: int|
            0 <= j < links.len() && (#[trigger] links[j]).pid == pid && links[j].parent == root;
        assert(p(links[j].pid));
    } else {
        let mid = choose|mid: u32|
            #[trigger] is_child(links, pid, mid) && descends(links, root, mid, (n - 1) as nat);
        lemma_descent(links, root, mid, (n - 1) as nat, p);
        let j = choose|j: int|
            0 <= j < links.len() && (#[trigger] links[j]).pid == pid && links[j].parent == mid;
        assert(p(links[j].pid));
    }
}

} // verus!
