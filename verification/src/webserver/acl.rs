//! What the web server may reach of an app: its socket, its proxy marker, and
//! the directories above them.

use vstd::prelude::*;

use crate::command;
use crate::command::CommandLine;
use crate::effect;
use crate::effect::{Change, Steps};
use crate::limits::usage;
use crate::path;
use crate::sys::state;
use crate::text;

verus! {

/// One `setfacl` call.
pub open spec fn granted(target: Seq<char>, entry: Seq<char>) -> command::CommandV {
    command::CommandV {
        program: "setfacl"@,
        args: seq!["-m"@, entry, target],
        env: Seq::empty(),
        current_dir: None,
    }
}

/// An entry of an access list: what a user may do.
pub open spec fn entry(user: Seq<char>, may: Seq<char>) -> Seq<char> {
    "u:"@ + user + ":"@ + may
}

/// The directory of its own that an isolated app's socket sits in.
pub open spec fn own_socket_dir(state_dir: Seq<char>, socket: Seq<char>) -> Option<Seq<char>> {
    match state::parent_of(socket) {
        Some(d) => if path::components(d) != path::components(
            path::under(state_dir, ".sockets"@),
        ) {
            Some(d)
        } else {
            None
        },
        None => None,
    }
}

/// The directories that have to be traversed to reach an app.
pub open spec fn way_in(state_dir: Seq<char>, socket: Seq<char>) -> Seq<Seq<char>> {
    let shared = seq![
        state_dir,
        path::under(state_dir, ".sockets"@),
        path::under(state_dir, ".proxy"@),
    ];
    match own_socket_dir(state_dir, socket) {
        Some(d) => shared.push(d),
        None => shared,
    }
}

/// Letting the web user in and nobody else: traverse on the directories, read
/// and write on the socket, read on the marker.
pub open spec fn grants(
    state_dir: Seq<char>,
    socket: Seq<char>,
    marker: Seq<char>,
    web_user: Seq<char>,
) -> Seq<command::CommandV> {
    let dirs = way_in(state_dir, socket);
    Seq::new(dirs.len(), |i: int| granted(dirs[i], entry(web_user, "--x"@))).push(
        granted(socket, entry(web_user, "rw-"@)),
    ).push(granted(marker, entry(web_user, "r--"@)))
}

/// Letting the web server in with mode bits, which cannot name one account:
/// traverse on the directories is for everybody.
pub open spec fn opened(state_dir: Seq<char>, socket: Seq<char>, marker: Seq<char>) -> Seq<
    effect::StepV,
> {
    let dirs = way_in(state_dir, socket);
    Seq::new(dirs.len(), |i: int| effect::tried(effect::ChangeV::SetMode(dirs[i], 0o711))).push(
        effect::tried(effect::ChangeV::SetMode(socket, 0o600)),
    ).push(effect::tried(effect::ChangeV::SetMode(marker, 0o604)))
}

fn directories(state_dir: &str, socket: &str) -> (r: Vec<String>)
    ensures
        text::views(r@) == way_in(state_dir@, socket@),
{
    let sockets = path::join(state_dir, ".sockets");
    let mut out: Vec<String> = Vec::new();
    out.push(state_dir.to_string());
    out.push(sockets.clone());
    out.push(path::join(state_dir, ".proxy"));
    if let Some(d) = state::parent_dir(socket) {
        if !path::same(&d, &sockets) {
            out.push(d);
        }
    }
    assert(text::views(out@) =~= way_in(state_dir@, socket@));
    out
}

fn setfacl(target: &str, user: &str, may: &str) -> (r: CommandLine)
    ensures
        r@ == granted(target@, entry(user@, may@)),
{
    let mut e = "u:".to_string();
    e.append(user);
    e.append(":");
    e.append(may);
    let mut cmd = CommandLine::new("setfacl");
    cmd.arg("-m");
    cmd.arg(&e);
    cmd.arg(target);
    assert(cmd@.args =~= seq!["-m"@, entry(user@, may@), target@]);
    cmd
}

/// How the web server is let in: these commands one after the other, and where
/// one of them fails the changes instead.
pub struct Access {
    pub commands: Vec<CommandLine>,
    pub fallback: Steps,
}

/// The `setfacl` calls that let the web user in.
pub fn try_setfacl(state_dir: &str, socket: &str, marker: &str, web_user: &str) -> (r: Vec<
    CommandLine,
>)
    ensures
        usage::command_views(r@) == grants(state_dir@, socket@, marker@, web_user@),
{
    let dirs = directories(state_dir, socket);
    let ghost ds = way_in(state_dir@, socket@);
    let ghost want = Seq::new(
        ds.len(),
        |i: int| granted(ds[i], entry(web_user@, "--x"@)),
    );
    let mut out: Vec<CommandLine> = Vec::new();
    let mut i: usize = 0;
    while i < dirs.len()
        invariant
            ds == text::views(dirs@),
            want == Seq::new(ds.len(), |i: int| granted(ds[i], entry(web_user@, "--x"@))),
            i <= dirs@.len(),
            out@.len() == i,
            forall|j: int| 0 <= j < i ==> (#[trigger] out@[j])@ == want[j],
        decreases dirs@.len() - i,
    {
        assert(dirs@[i as int]@ == ds[i as int]);
        out.push(setfacl(&dirs[i], web_user, "--x"));
        i = i + 1;
    }
    out.push(setfacl(socket, web_user, "rw-"));
    out.push(setfacl(marker, web_user, "r--"));
    assert(usage::command_views(out@) =~= grants(state_dir@, socket@, marker@, web_user@));
    out
}

/// The mode bits that let the web server in where `setfacl` cannot.
pub fn fallback_chmod(state_dir: &str, socket: &str, marker: &str) -> (r: Steps)
    ensures
        r@ == opened(state_dir@, socket@, marker@),
{
    let dirs = directories(state_dir, socket);
    let ghost ds = way_in(state_dir@, socket@);
    let mut steps = Steps::new();
    let mut i: usize = 0;
    while i < dirs.len()
        invariant
            ds == text::views(dirs@),
            i <= dirs@.len(),
            steps@ == Seq::new(
                i as nat,
                |k: int| effect::tried(effect::ChangeV::SetMode(ds[k], 0o711)),
            ),
        decreases dirs@.len() - i,
    {
        assert(dirs@[i as int]@ == ds[i as int]);
        steps.try_to(Change::SetMode(dirs[i].clone(), 0o711));
        assert(steps@ =~= Seq::new(
            (i + 1) as nat,
            |k: int| effect::tried(effect::ChangeV::SetMode(ds[k], 0o711)),
        ));
        i = i + 1;
    }
    steps.try_to(Change::SetMode(socket.to_string(), 0o600));
    steps.try_to(Change::SetMode(marker.to_string(), 0o604));
    assert(steps@ =~= opened(state_dir@, socket@, marker@));
    steps
}

/// Grants the web user the minimum access required to reach an app's Unix
/// socket and proxy marker; nothing when there is no web user.
pub fn apply_acl(state_dir: &str, socket: &str, marker: &str, web_user: &str) -> (r: Option<Access>)
    ensures
        r is Some <==> web_user@.len() > 0,
        r matches Some(a) ==> usage::command_views(a.commands@) == grants(
            state_dir@,
            socket@,
            marker@,
            web_user@,
        ) && a.fallback@ == opened(state_dir@, socket@, marker@),
{
    if web_user.is_empty() {
        return None;
    }
    Some(
        Access {
            commands: try_setfacl(state_dir, socket, marker, web_user),
            fallback: fallback_chmod(state_dir, socket, marker),
        },
    )
}

/// The mode that a run of steps leaves a path with, if any of them sets one.
pub open spec fn mode_left(steps: Seq<effect::StepV>, p: Seq<char>) -> Option<int>
    decreases steps.len(),
{
    if steps.len() == 0 {
        None
    } else {
        match steps.last().change {
            effect::ChangeV::SetMode(q, m) if q == p => Some(m),
            _ => mode_left(steps.drop_last(), p),
        }
    }
}

/// Even where the web user cannot be named, no other account can open the
/// socket: it is left its owner's.
pub proof fn law_socket_stays_private(state_dir: Seq<char>, socket: Seq<char>, marker: Seq<char>)
    requires
        marker != socket,
    ensures
        mode_left(opened(state_dir, socket, marker), socket) == Some(0o600int),
{
    let all = opened(state_dir, socket, marker);
    let before = all.drop_last();
    assert(all.last().change == effect::ChangeV::SetMode(marker, 0o604));
    assert(before.last().change == effect::ChangeV::SetMode(socket, 0o600));
    assert(mode_left(before, socket) == Some(0o600int));
}

/// The web server may go through the directories on the way to an app, use its
/// socket and read its marker, and nothing more.
pub proof fn law_web_server_is_let_in_and_no_further(
    state_dir: Seq<char>,
    socket: Seq<char>,
    marker: Seq<char>,
    web_user: Seq<char>,
    i: int,
)
    ensures
        ({
            let g = grants(state_dir, socket, marker, web_user);
            let dirs = way_in(state_dir, socket);
            &&& g.len() == dirs.len() + 2
            &&& 0 <= i < dirs.len() ==> g[i].program == "setfacl"@ && g[i].args == seq![
                "-m"@,
                "u:"@ + web_user + ":"@ + "--x"@,
                dirs[i],
            ]
            &&& g[g.len() - 2].program == "setfacl"@ && g[g.len() - 2].args == seq![
                "-m"@,
                "u:"@ + web_user + ":"@ + "rw-"@,
                socket,
            ]
            &&& g[g.len() - 1].program == "setfacl"@ && g[g.len() - 1].args == seq![
                "-m"@,
                "u:"@ + web_user + ":"@ + "r--"@,
                marker,
            ]
        }),
{
}

/// The way to an app leads through the account's state directory and those of its
/// sockets and markers; an isolated app's socket has a directory of its own on it.
pub proof fn law_way_in_leads_to_the_socket(state_dir: Seq<char>, socket: Seq<char>, dir: Seq<char>)
    requires
        state::parent_of(socket) == Some(dir),
    ensures
        ({
            let w = way_in(state_dir, socket);
            &&& w.len() >= 3
            &&& w[0] == state_dir
            &&& w[1] == path::under(state_dir, ".sockets"@)
            &&& w[2] == path::under(state_dir, ".proxy"@)
            &&& path::components(dir) == path::components(path::under(state_dir, ".sockets"@))
                ==> w.len() == 3
            &&& path::components(dir) != path::components(path::under(state_dir, ".sockets"@))
                ==> w.len() == 4 && w[3] == dir
        }),
{
}

/// Where mode bits have to do, everybody may go through the directories but not list
/// them, the socket stays its owner's, and the marker can be read.
pub proof fn law_mode_bits_open_no_more_than_the_way(
    state_dir: Seq<char>,
    socket: Seq<char>,
    marker: Seq<char>,
    i: int,
)
    ensures
        ({
            let o = opened(state_dir, socket, marker);
            let dirs = way_in(state_dir, socket);
            &&& o.len() == dirs.len() + 2
            &&& 0 <= i < dirs.len() ==> o[i].change == effect::ChangeV::SetMode(dirs[i], 457)
            &&& o[o.len() - 2].change == effect::ChangeV::SetMode(socket, 384)
            &&& o[o.len() - 1].change == effect::ChangeV::SetMode(marker, 388)
        }),
{
}

} // verus!
