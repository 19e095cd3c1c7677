//! Wires the panel into OpenLiteSpeed and DirectAdmin.
//!
//! Two things have to be in place for an app to receive traffic: DirectAdmin's
//! vhost templates carry the proxy blocks, so every generated vhost knows how to
//! reach an app's socket; and the web server's user is recorded, since the
//! socket is opened to it and nobody else.

use vstd::prelude::*;

use crate::command;
use crate::command::CommandLine;
use crate::effect;
use crate::effect::{Change, Steps};
use crate::path;
use crate::sys::state;
use crate::sys::state::{DA_TEMPLATES, PLUGIN_PATH, STATE_BASE};
use crate::text;

verus! {

/// Delimiters of the block the panel owns inside a shared template file.
///
/// DirectAdmin templates may hold other people's customisations, so the block
/// is replaced between its markers instead of the file being overwritten.
pub const BEGIN_MARK: &'static str = "# BEGIN SELYNT_PANEL";

pub const END_MARK: &'static str = "# END SELYNT_PANEL";

/// Per-vhost proxy handler, pointing at the app's Unix socket.
///
/// `|SDOMAIN|`, `|VH_PORT|` and `|USER|` are DirectAdmin template variables,
/// substituted when it generates each vhost.
pub const TEMPLATE_CUSTOM_7: &'static str = "# BEGIN SELYNT_PANEL
extprocessor selynt_proxy-|SDOMAIN|-|VH_PORT| {
  type                    proxy
  address                 uds:///var/lib/selynt_panel/|USER|/.sockets/|SDOMAIN|
  maxConns                35
  initTimeout             60
  retryTimeout            0
  persistConn             1
  respBuffer              0
  autoStart               0
  instances               1
}
# END SELYNT_PANEL";

/// Routes to the handler above, but only while the app's proxy marker exists.
///
/// Without that condition every request to the domain would be proxied, so a
/// stopped app would break the site instead of falling through to PHP or static
/// files.
pub const TEMPLATE_CUSTOM_5: &'static str = "# BEGIN SELYNT_PANEL
RewriteCond /var/lib/selynt_panel/|USER|/.proxy/|SDOMAIN| -f
RewriteRule ^(.*)$ http://selynt_proxy-|SDOMAIN|-|VH_PORT|/$1 [P,L,E=PROXY-HOST:|HTTP_HOST|]
# END SELYNT_PANEL";

// ---------------------------------------------------------------------------
// The configuration
// ---------------------------------------------------------------------------

/// Where OpenLiteSpeed keeps its configuration, newer layout first: DirectAdmin
/// from 1.690 on installs it under `/etc`.
pub const CONF_NEW: &'static str = "/etc/openlitespeed";

pub const CONF_OLD: &'static str = "/usr/local/lsws/conf";

pub const MAIN_CONF: &'static str = "httpd_config.conf";

/// OpenLiteSpeed's configuration directory. `new` and `old` say which of the
/// two layouts hold a main configuration file.
pub fn conf_dir(new: bool, old: bool) -> (r: Option<&'static str>)
    ensures
        match r {
            Some(d) => (new && d@ == CONF_NEW@) || (!new && old && d@ == CONF_OLD@),
            None => !new && !old,
        },
{
    if new {
        Some(CONF_NEW)
    } else if old {
        Some(CONF_OLD)
    } else {
        None
    }
}

/// The main configuration file, when OpenLiteSpeed is installed.
pub fn main_conf(new: bool, old: bool) -> (r: Option<String>)
    ensures
        match r {
            Some(f) => (new && f@ == path::under(CONF_NEW@, MAIN_CONF@)) || (!new && old && f@
                == path::under(CONF_OLD@, MAIN_CONF@)),
            None => !new && !old,
        },
{
    match conf_dir(new, old) {
        Some(d) => Some(path::join(d, MAIN_CONF)),
        None => None,
    }
}

// ---------------------------------------------------------------------------
// The block in a template
// ---------------------------------------------------------------------------

pub open spec fn is_begin(line: Seq<char>) -> bool {
    text::trimmed_end(line) == BEGIN_MARK@
}

pub open spec fn is_end(line: Seq<char>) -> bool {
    text::trimmed_end(line) == END_MARK@
}

/// Whether the panel's block is open behind these lines.
pub open spec fn is_open(ls: Seq<Seq<char>>) -> bool
    decreases ls.len(),
{
    if ls.len() == 0 {
        false
    } else if is_begin(ls.last()) {
        true
    } else if is_end(ls.last()) {
        false
    } else {
        is_open(ls.drop_last())
    }
}

/// The lines that are not the panel's.
pub open spec fn foreign(ls: Seq<Seq<char>>) -> Seq<Seq<char>>
    decreases ls.len(),
{
    if ls.len() == 0 {
        Seq::empty()
    } else {
        let front = ls.drop_last();
        let l = ls.last();
        if is_begin(l) || is_end(l) || is_open(front) {
            foreign(front)
        } else {
            foreign(front).push(l)
        }
    }
}

/// What a file holds besides the panel's block.
pub open spec fn others(content: Seq<char>) -> Seq<char> {
    text::closed_lines(foreign(text::lines(content)))
}

/// Whether nothing is left of a file.
pub open spec fn is_blank(content: Seq<char>) -> bool {
    text::trimmed(content).len() == 0
}

/// What a file holds besides the panel's block: everything outside its markers.
pub fn without_block(content: &str) -> (r: String)
    ensures
        r@ == others(content@),
{
    let ls = text::split_lines(content);
    let ghost vs = text::views(ls@);
    let mut kept: Vec<String> = Vec::new();
    let mut inside = false;
    let mut i: usize = 0;
    assert(text::views(kept@) =~= foreign(vs.take(0)));
    while i < ls.len()
        invariant
            vs == text::views(ls@),
            i <= ls@.len(),
            inside == is_open(vs.take(i as int)),
            text::views(kept@) == foreign(vs.take(i as int)),
        decreases ls@.len() - i,
    {
        let ghost before = text::views(kept@);
        assert(vs.take(i + 1).drop_last() =~= vs.take(i as int));
        assert(vs.take(i + 1).last() == ls@[i as int]@);
        let bare = text::trim_end(&ls[i]);
        if text::same(&bare, BEGIN_MARK) {
            inside = true;
        } else if text::same(&bare, END_MARK) {
            inside = false;
        } else if !inside {
            let line = ls[i].clone();
            kept.push(line);
            assert(text::views(kept@) =~= before.push(line@));
        }
        i = i + 1;
    }
    assert(vs.take(i as int) =~= vs);
    text::close_lines(&kept)
}

/// Whether nothing is left of a file.
pub fn nothing_left(content: &str) -> (r: bool)
    ensures
        r == is_blank(content@),
{
    let t = text::trim(content);
    let cs = text::chars(&t);
    cs.len() == 0
}

/// A file with this as the panel's block.
pub open spec fn upserted(existing: Seq<char>, block: Seq<char>) -> Seq<char> {
    if is_blank(others(existing)) {
        block + "\n"@
    } else {
        block + "\n"@ + others(existing)
    }
}

/// Replaces the panel's block in a template, leaving anything else in place.
/// `existing` is what the template holds, if it is there.
pub fn upsert_block(existing: Option<&str>, block: &str) -> (r: String)
    ensures
        r@ == upserted(
            match existing {
                Some(e) => e@,
                None => Seq::empty(),
            },
            block@,
        ),
{
    let mut content = block.to_string();
    content.append("\n");
    let kept = match existing {
        Some(e) => without_block(e),
        None => {
            proof {
                let nothing = Seq::<char>::empty();
                assert(text::lines(nothing) =~= Seq::<Seq<char>>::empty());
                assert(foreign(text::lines(nothing)) =~= Seq::<Seq<char>>::empty());
            }
            String::new()
        },
    };
    assert(existing is None ==> kept@ =~= others(Seq::empty()));
    if !nothing_left(&kept) {
        content.append(&kept);
    }
    content
}

/// What becomes of a template whose block is removed.
pub enum Stripped {
    /// Nothing else was in it: the file goes.
    Remove,
    /// This is what was not the panel's.
    Keep(String),
}

/// Removes the panel's block from a template. One that held nothing else goes
/// altogether.
pub fn strip_block(content: &str) -> (r: Stripped)
    ensures
        match r {
            Stripped::Remove => is_blank(others(content@)),
            Stripped::Keep(k) => !is_blank(others(content@)) && k@ == others(content@),
        },
{
    let kept = without_block(content);
    if nothing_left(&kept) {
        Stripped::Remove
    } else {
        Stripped::Keep(kept)
    }
}

/// The lines of a block: its markers around lines that are not markers.
pub open spec fn is_block(ls: Seq<Seq<char>>) -> bool {
    &&& ls.len() >= 2
    &&& ls[0] == BEGIN_MARK@
    &&& ls.last() == END_MARK@
    &&& forall|i: int|
        1 <= i < ls.len() - 1 ==> !is_begin(#[trigger] ls[i]) && !is_end(ls[i])
            && !ls[i].contains('\n')
}

/// Whether what a file holds besides the panel's block can be written and read
/// back: none of its lines ends in a carriage return. Nothing but white space is
/// not written again.
pub open spec fn others_stay(content: Seq<char>) -> bool {
    let fl = foreign(text::lines(content));
    is_blank(others(content)) || forall|i: int|
        0 <= i < fl.len() ==> text::is_plain_line(#[trigger] fl[i])
}

proof fn lemma_marks()
    ensures
        is_begin(BEGIN_MARK@),
        !is_end(BEGIN_MARK@),
        is_end(END_MARK@),
        !is_begin(END_MARK@),
        text::is_plain_line(BEGIN_MARK@),
        text::is_plain_line(END_MARK@),
{
    reveal_strlit("# BEGIN SELYNT_PANEL");
    reveal_strlit("# END SELYNT_PANEL");
    assert(BEGIN_MARK@.last() == 'L');
    assert(END_MARK@.last() == 'L');
    assert(BEGIN_MARK@.len() == 20);
    assert(END_MARK@.len() == 18);
}

proof fn lemma_foreign(ls: Seq<Seq<char>>)
    ensures
        forall|i: int|
            0 <= i < foreign(ls).len() ==> !is_begin(#[trigger] foreign(ls)[i]) && !is_end(
                foreign(ls)[i],
            ) && ls.contains(foreign(ls)[i]),
    decreases ls.len(),
{
    if ls.len() > 0 {
        let front = ls.drop_last();
        lemma_foreign(front);
        assert forall|i: int| 0 <= i < foreign(ls).len() implies !is_begin(
            #[trigger] foreign(ls)[i],
        ) && !is_end(foreign(ls)[i]) && ls.contains(foreign(ls)[i]) by {
            if i < foreign(front).len() {
                let l = foreign(front)[i];
                assert(front.contains(l));
                let j = choose|j: int| 0 <= j < front.len() && front[j] == l;
                assert(ls[j] == l);
            } else {
                assert(ls[ls.len() - 1] == foreign(ls)[i]);
            }
        }
    }
}

/// Up to its end, a block is open and all its own.
proof fn lemma_block_inside(ls: Seq<Seq<char>>, n: int)
    requires
        is_block(ls),
        1 <= n < ls.len(),
    ensures
        is_open(ls.take(n)),
        foreign(ls.take(n)) == Seq::<Seq<char>>::empty(),
    decreases n,
{
    lemma_marks();
    let t = ls.take(n);
    let front = t.drop_last();
    if n == 1 {
        assert(front =~= Seq::<Seq<char>>::empty());
        assert(t.last() == BEGIN_MARK@);
        assert(foreign(front) =~= Seq::<Seq<char>>::empty());
    } else {
        lemma_block_inside(ls, n - 1);
        assert(front =~= ls.take(n - 1));
        assert(t.last() == ls[n - 1]);
    }
}

/// A block is read back as one, whatever its lines end with.
proof fn lemma_block_is_bare(bl: Seq<Seq<char>>)
    requires
        is_block(bl),
    ensures
        is_block(text::bare(bl)),
        forall|i: int| 0 <= i < bl.len() ==> !(#[trigger] bl[i]).contains('\n'),
{
    lemma_marks();
    let r = text::bare(bl);
    assert forall|i: int| 1 <= i < r.len() - 1 implies !is_begin(#[trigger] r[i]) && !is_end(r[i])
        && !r[i].contains('\n') by {
        let l = bl[i];
        assert(!is_begin(l) && !is_end(l) && !l.contains('\n'));
        if l.len() > 0 && l.last() == '\r' {
            assert(text::trimmed_end(l) == text::trimmed_end(r[i]));
        }
        assert forall|j: int| 0 <= j < r[i].len() implies r[i][j] != '\n' by {
            assert(l.contains(l[j]));
        }
    }
    assert forall|i: int| 0 <= i < bl.len() implies !(#[trigger] bl[i]).contains('\n') by {
        if i == 0 || i == bl.len() - 1 {
            assert(text::is_plain_line(bl[i]));
        }
    }
}

/// Behind a block, every line that is no marker is foreign.
proof fn lemma_behind_block(bl: Seq<Seq<char>>, fl: Seq<Seq<char>>)
    requires
        is_block(bl),
        forall|i: int| 0 <= i < fl.len() ==> !is_begin(#[trigger] fl[i]) && !is_end(fl[i]),
    ensures
        !is_open(bl + fl),
        foreign(bl + fl) == fl,
    decreases fl.len(),
{
    lemma_marks();
    if fl.len() == 0 {
        assert(bl + fl =~= bl);
        lemma_block_inside(bl, bl.len() - 1);
        assert(bl.drop_last() =~= bl.take(bl.len() - 1));
        assert(foreign(bl) =~= fl);
    } else {
        let front = fl.drop_last();
        lemma_behind_block(bl, front);
        assert((bl + fl).drop_last() =~= bl + front);
        assert((bl + fl).last() == fl.last());
        assert(fl.last() == fl[fl.len() - 1]);
        assert(front.push(fl.last()) =~= fl);
    }
}

/// Installing a block keeps everything that is not the panel's, and installing
/// another one replaces it instead of stacking a second copy; removing it gives
/// back what was there before. A file that held only white space besides is
/// taken for empty.
pub proof fn law_block_replaces_only_itself(
    existing: Seq<char>,
    bl: Seq<Seq<char>>,
    block: Seq<char>,
    later: Seq<char>,
)
    requires
        is_block(bl),
        block + "\n"@ == text::closed_lines(bl),
        others_stay(existing),
    ensures
        others(upserted(existing, block)) == (if is_blank(others(existing)) {
            Seq::empty()
        } else {
            others(existing)
        }),
        upserted(upserted(existing, block), later) == upserted(existing, later),
{
    lemma_marks();
    let ls = text::lines(existing);
    let fl = foreign(ls);
    lemma_foreign(ls);
    let kept = if is_blank(others(existing)) {
        Seq::<Seq<char>>::empty()
    } else {
        fl
    };
    let all = bl + kept;
    lemma_block_is_bare(bl);
    assert forall|i: int| 0 <= i < kept.len() implies text::without_cr(#[trigger] kept[i])
        == kept[i] && !kept[i].contains('\n') by {
        assert(text::is_plain_line(fl[i]));
    }
    assert forall|i: int| 0 <= i < all.len() implies !(#[trigger] all[i]).contains('\n') by {
        if i < bl.len() {
            assert(all[i] == bl[i]);
        } else {
            assert(all[i] == kept[i - bl.len()]);
        }
    }
    text::lemma_closed_lines_join(bl, kept);
    assert(upserted(existing, block) =~= text::closed_lines(all));
    text::lemma_closed_lines_are_bare(all);
    assert(text::bare(all) =~= text::bare(bl) + kept) by {
        assert forall|i: int| bl.len() <= i < all.len() implies text::bare(all)[i] == kept[i
            - bl.len()] by {
            assert(text::without_cr(kept[i - bl.len()]) == kept[i - bl.len()]);
        }
    }
    lemma_behind_block(text::bare(bl), kept);
    assert(others(upserted(existing, block)) == text::closed_lines(kept));
    if is_blank(others(existing)) {
        let nothing = Seq::<char>::empty();
        assert(text::trimmed_start(nothing) =~= nothing);
        assert(text::trimmed_end(nothing) =~= nothing);
        assert(is_blank(nothing));
    }
}

// ---------------------------------------------------------------------------
// The web server's user
// ---------------------------------------------------------------------------

pub open spec fn unquoted_start(s: Seq<char>) -> Seq<char>
    decreases s.len(),
{
    if s.len() > 0 && s[0] == '"' {
        unquoted_start(s.skip(1))
    } else {
        s
    }
}

pub open spec fn unquoted_end(s: Seq<char>) -> Seq<char>
    decreases s.len(),
{
    if s.len() > 0 && s.last() == '"' {
        unquoted_end(s.drop_last())
    } else {
        s
    }
}

/// The user that a line of the configuration sets, if it sets one. A line that
/// is commented out is no setting.
pub open spec fn user_set(line: Seq<char>) -> Option<Seq<char>> {
    let t = text::trimmed(line);
    let ws = text::words(t);
    if t.len() > 0 && t[0] == '#' {
        None
    } else if ws.len() >= 2 && text::lower(ws[0]) == "user"@ {
        let user = unquoted_end(unquoted_start(ws[1]));
        if user.len() > 0 {
            Some(user)
        } else {
            None
        }
    } else {
        None
    }
}

/// The users that the lines of a configuration set.
pub open spec fn users_set(ls: Seq<Seq<char>>) -> Seq<Seq<char>>
    decreases ls.len(),
{
    if ls.len() == 0 {
        Seq::empty()
    } else {
        match user_set(ls.last()) {
            Some(u) => users_set(ls.drop_last()).push(u),
            None => users_set(ls.drop_last()),
        }
    }
}

/// The accounts a web server is normally installed as.
pub open spec fn usual_users() -> Seq<Seq<char>> {
    seq!["apache"@, "lsws"@, "www-data"@, "nginx"@, "nobody"@]
}

/// Who the web server may run as, likeliest first: what its own configuration
/// says, and then the usual accounts. DirectAdmin's configuration sets no user
/// at all, so the second is the usual way, not the exception.
pub open spec fn possible_users(conf: Option<Seq<char>>) -> Seq<Seq<char>> {
    match conf {
        Some(c) => users_set(text::lines(c)) + usual_users(),
        None => usual_users(),
    }
}

fn unquote(s: &str) -> (r: String)
    ensures
        r@ == unquoted_end(unquoted_start(s@)),
{
    let cs = text::chars(s);
    let n: usize = cs.len();
    let mut a: usize = 0;
    assert(s@.skip(0) =~= s@);
    while a < n && cs[a] == '"'
        invariant
            n == cs@.len(),
            cs@ == s@,
            a <= n,
            unquoted_start(s@) == unquoted_start(s@.skip(a as int)),
        decreases n - a,
    {
        assert(s@.skip(a as int).skip(1) =~= s@.skip(a + 1));
        a = a + 1;
    }
    let ghost mid = s@.skip(a as int);
    assert(unquoted_start(s@) == mid);
    let mut b: usize = n;
    assert(mid.take(mid.len() as int) =~= mid);
    while b > a && cs[b - 1] == '"'
        invariant
            n == cs@.len(),
            cs@ == s@,
            a <= b <= n,
            mid == s@.skip(a as int),
            unquoted_end(mid) == unquoted_end(mid.take(b - a)),
        decreases b,
    {
        assert(mid.take(b - a).last() == cs@[b - 1]);
        assert(mid.take(b - a).drop_last() =~= mid.take(b - 1 - a));
        b = b - 1;
    }
    assert(b > a ==> mid.take(b - a).last() == cs@[b - 1]);
    let r = text::slice(&cs, a, b);
    assert(r@ =~= mid.take(b - a));
    r
}

fn line_user(line: &str) -> (r: Option<String>)
    ensures
        command::opt(r) == user_set(line@),
{
    let t = text::trim(line);
    proof {
        reveal_strlit("#");
    }
    if text::starts_with(&t, "#") {
        assert(t@[0] == "#"@[0]);
        return None;
    }
    assert(t@.len() > 0 && t@[0] == '#' ==> "#"@.is_prefix_of(t@));
    let ws = text::split_words(&t);
    let ghost vs = text::views(ws@);
    if ws.len() < 2 {
        return None;
    }
    assert(vs[0] == ws@[0]@ && vs[1] == ws@[1]@);
    if !text::same(&text::to_lower(&ws[0]), "user") {
        return None;
    }
    let user = unquote(&ws[1]);
    let cs = text::chars(&user);
    if cs.len() == 0 {
        None
    } else {
        Some(user)
    }
}

/// Who the web server may run as, likeliest first. `conf` is its main
/// configuration file.
pub fn web_user_candidates(conf: Option<&str>) -> (r: Vec<String>)
    ensures
        text::views(r@) == possible_users(state::opt_view(conf)),
{
    let mut out: Vec<String> = Vec::new();
    let ghost mut set = Seq::<Seq<char>>::empty();
    assert(text::views(out@) =~= set);
    if let Some(c) = conf {
        let ls = text::split_lines(c);
        let ghost vs = text::views(ls@);
        let mut i: usize = 0;
        assert(text::views(out@) =~= users_set(vs.take(0)));
        while i < ls.len()
            invariant
                vs == text::views(ls@),
                i <= ls@.len(),
                text::views(out@) == users_set(vs.take(i as int)),
            decreases ls@.len() - i,
        {
            let ghost before = text::views(out@);
            assert(vs.take(i + 1).drop_last() =~= vs.take(i as int));
            assert(vs.take(i + 1).last() == ls@[i as int]@);
            if let Some(u) = line_user(&ls[i]) {
                out.push(u);
                assert(text::views(out@) =~= before.push(u@));
            }
            i = i + 1;
        }
        assert(vs.take(i as int) =~= vs);
        proof {
            set = users_set(vs);
        }
    }
    out.push("apache".to_string());
    out.push("lsws".to_string());
    out.push("www-data".to_string());
    out.push("nginx".to_string());
    out.push("nobody".to_string());
    assert(text::views(out@) =~= set + usual_users());
    assert(conf is None ==> set + usual_users() =~= usual_users());
    out
}

/// The first of these accounts that exists.
pub open spec fn first_existing(users: Seq<Seq<char>>, known: Seq<bool>) -> Option<Seq<char>>
    decreases users.len(),
{
    if users.len() == 0 {
        None
    } else if known[0] {
        Some(users[0])
    } else {
        first_existing(users.skip(1), known.skip(1))
    }
}

/// The account OpenLiteSpeed runs as: the first candidate that exists. The
/// access to sockets is granted to it, and granting that to nobody at all would
/// leave every app unreachable with no error to point at.
pub fn detect_web_user(candidates: &Vec<String>, known: &Vec<bool>) -> (r: Option<String>)
    requires
        known@.len() == candidates@.len(),
    ensures
        command::opt(r) == first_existing(text::views(candidates@), known@),
{
    let ghost us = text::views(candidates@);
    let mut i: usize = 0;
    assert(us.skip(0) =~= us);
    assert(known@.skip(0) =~= known@);
    while i < candidates.len()
        invariant
            us == text::views(candidates@),
            known@.len() == candidates@.len(),
            i <= candidates@.len(),
            first_existing(us, known@) == first_existing(us.skip(i as int), known@.skip(i as int)),
        decreases candidates@.len() - i,
    {
        assert(us.skip(i as int)[0] == candidates@[i as int]@);
        assert(known@.skip(i as int)[0] == known@[i as int]);
        if known[i] {
            return Some(candidates[i].clone());
        }
        assert(us.skip(i as int).skip(1) =~= us.skip(i + 1));
        assert(known@.skip(i as int).skip(1) =~= known@.skip(i + 1));
        i = i + 1;
    }
    None
}

// ---------------------------------------------------------------------------
// Setting up
// ---------------------------------------------------------------------------

/// The directory that DirectAdmin's custom build lives in.
pub const CUSTOMBUILD: &'static str = "/usr/local/directadmin/custombuild";

/// The command that has DirectAdmin regenerate every vhost from the templates;
/// installing a template changes nothing on its own. `custombuild` says whether
/// the build script is there.
pub fn rebuild_vhosts(custombuild: bool) -> (r: CommandLine)
    ensures
        r@ == (if custombuild {
            command::CommandV {
                program: "./build"@,
                args: seq!["rewrite_confs"@],
                env: Seq::empty(),
                current_dir: Some(CUSTOMBUILD@),
            }
        } else {
            command::CommandV {
                program: "da"@,
                args: seq!["build"@, "rewrite_confs"@],
                env: Seq::empty(),
                current_dir: None,
            }
        }),
{
    if custombuild {
        let mut cmd = CommandLine::new("./build");
        cmd.arg("rewrite_confs");
        cmd.in_dir(CUSTOMBUILD);
        assert(cmd@.args =~= seq!["rewrite_confs"@]);
        cmd
    } else {
        let mut cmd = CommandLine::new("da");
        cmd.arg("build");
        cmd.arg("rewrite_confs");
        assert(cmd@.args =~= seq!["build"@, "rewrite_confs"@]);
        cmd
    }
}

/// What the setup did, so the installer can report it.
pub struct Outcome {
    pub web_user: Option<String>,
    /// Whether DirectAdmin regenerated its vhosts from the new templates.
    pub vhosts_rebuilt: bool,
}

/// The directory of customised templates.
pub open spec fn custom_dir() -> Seq<char> {
    path::under(DA_TEMPLATES@, "custom"@)
}

/// The template with this number.
pub open spec fn template_path(number: Seq<char>) -> Seq<char> {
    path::under(custom_dir(), "openlitespeed_vhost.conf.CUSTOM."@ + number + ".pre"@)
}

/// The template with this number.
pub fn template_file(number: &str) -> (r: String)
    ensures
        r@ == template_path(number@),
{
    let mut name = "openlitespeed_vhost.conf.CUSTOM.".to_string();
    name.append(number);
    name.append(".pre");
    path::join(&path::join(DA_TEMPLATES, "custom"), &name)
}

/// Writing a template.
pub open spec fn template_written(number: Seq<char>, existing: Option<Seq<char>>, block: Seq<char>) ->
    Seq<effect::StepV> {
    let content = upserted(
        match existing {
            Some(e) => e,
            None => Seq::empty(),
        },
        block,
    );
    seq![
        effect::needed(effect::ChangeV::MakeDir(custom_dir())),
        effect::needed(effect::ChangeV::Write(template_path(number), content)),
        effect::needed(effect::ChangeV::SetMode(template_path(number), 0o644)),
    ]
}

fn write_template(steps: &mut Steps, number: &str, existing: Option<&str>, block: &str)
    ensures
        final(steps)@ == old(steps)@ + template_written(
            number@,
            state::opt_view(existing),
            block@,
        ),
{
    let ghost before = steps@;
    let file = template_file(number);
    steps.need(Change::MakeDir(path::join(DA_TEMPLATES, "custom")));
    steps.need(Change::Write(file.clone(), upsert_block(existing, block)));
    steps.need(Change::SetMode(file, 0o644));
    assert(steps@ =~= before + template_written(number@, state::opt_view(existing), block@));
}

/// How the web server is wired up: the templates, the way into the state
/// directory, and the record of the web server's user, in this order. The
/// vhosts are rebuilt where templates were written.
pub struct OlsPlan {
    pub templates: Steps,
    pub state_base: Steps,
    pub user: Steps,
    pub rebuild: bool,
}

/// Recording the web server's user.
pub open spec fn user_recorded(user: Option<Seq<char>>) -> Seq<effect::StepV> {
    match user {
        Some(u) => {
            let etc = path::under(PLUGIN_PATH@, "etc"@);
            let file = path::under(etc, "ols_web_user"@);
            seq![
                effect::tried(effect::ChangeV::MakeDir(etc)),
                effect::needed(effect::ChangeV::Write(file, u + "\n"@)),
                effect::needed(effect::ChangeV::SetMode(file, 0o644)),
            ]
        },
        None => Seq::empty(),
    }
}

/// What could not be written while the web server was wired up.
#[derive(Debug, Clone, Copy, PartialEq, Eq, Structural)]
pub enum Unwritten {
    Templates,
    WebUser,
}

/// The error when something could not be written.
pub fn wiring_failed(what: Unwritten, error: String) -> (r: (String, String))
    ensures
        r.0@ == (match what {
            Unwritten::Templates => "template_write_failed"@,
            Unwritten::WebUser => "web_user_write_failed"@,
        }),
        r.1@ == error@,
{
    match what {
        Unwritten::Templates => ("template_write_failed".to_string(), error),
        Unwritten::WebUser => ("web_user_write_failed".to_string(), error),
    }
}

/// Installs the templates and records the web server's user. `found` says
/// whether there is an OpenLiteSpeed, `templates` whether DirectAdmin keeps
/// templates, `seven` and `five` are what the two templates hold, and `web_user`
/// is what [`detect_web_user`] found.
pub fn run(
    found: bool,
    templates: bool,
    seven: Option<&str>,
    five: Option<&str>,
    web_user: Option<&str>,
) -> (r: Result<OlsPlan, (String, String)>)
    ensures
        match r {
            Err(e) => !found && e.0@ == "ols_missing"@ && e.1@
                == "OpenLiteSpeed not found — the panel routes traffic through it"@,
            Ok(p) => {
                &&& found
                &&& p.rebuild == templates
                &&& p.templates@ == (if templates {
                    template_written("7"@, state::opt_view(seven), TEMPLATE_CUSTOM_7@)
                        + template_written("5"@, state::opt_view(five), TEMPLATE_CUSTOM_5@)
                } else {
                    Seq::empty()
                })
                &&& p.state_base@ == seq![
                    effect::tried(effect::ChangeV::SetMode(STATE_BASE@, 0o711)),
                ]
                &&& p.user@ == user_recorded(state::opt_view(web_user))
            },
        },
{
    if !found {
        return Err(
            (
                "ols_missing".to_string(),
                "OpenLiteSpeed not found — the panel routes traffic through it".to_string(),
            ),
        );
    }
    let mut written = Steps::new();
    if templates {
        write_template(&mut written, "7", seven, TEMPLATE_CUSTOM_7);
        write_template(&mut written, "5", five, TEMPLATE_CUSTOM_5);
        assert(written@ =~= template_written("7"@, state::opt_view(seven), TEMPLATE_CUSTOM_7@)
            + template_written("5"@, state::opt_view(five), TEMPLATE_CUSTOM_5@));
    }
    let mut base = Steps::new();
    base.try_to(Change::SetMode(STATE_BASE.to_string(), 0o711));
    assert(base@ =~= seq![effect::tried(effect::ChangeV::SetMode(STATE_BASE@, 0o711))]);
    let mut user = Steps::new();
    if let Some(u) = web_user {
        let etc = path::join(PLUGIN_PATH, "etc");
        let file = path::join(&etc, "ols_web_user");
        user.try_to(Change::MakeDir(etc));
        user.need(Change::Write(file.clone(), text::cat(u, "\n")));
        user.need(Change::SetMode(file, 0o644));
    }
    assert(user@ =~= user_recorded(state::opt_view(web_user)));
    Ok(OlsPlan { templates: written, state_base: base, user, rebuild: templates })
}

/// Of a file, the panel's are its block and nothing else: lines without markers are
/// all somebody else's, and what stands before and behind a block stays.
pub proof fn law_only_the_block_is_the_panels(
    a: Seq<Seq<char>>,
    inner: Seq<Seq<char>>,
    b: Seq<Seq<char>>,
)
    requires
        forall|i: int| 0 <= i < a.len() ==> !is_begin(#[trigger] a[i]) && !is_end(a[i]),
        forall|i: int| 0 <= i < inner.len() ==> !is_begin(#[trigger] inner[i]) && !is_end(inner[i]),
        forall|i: int| 0 <= i < b.len() ==> !is_begin(#[trigger] b[i]) && !is_end(b[i]),
    ensures
        foreign(a) == a,
        foreign(a + (seq!["# BEGIN SELYNT_PANEL"@] + inner.push("# END SELYNT_PANEL"@)) + b) == a + b,
{
    lemma_marks();
    let none = Seq::<Seq<char>>::empty();
    lemma_unmarked(none, a);
    assert(none + a =~= a);
    assert(foreign(none) =~= none);
    let begun = a.push("# BEGIN SELYNT_PANEL"@);
    assert(begun.drop_last() =~= a);
    lemma_swallowed(begun, inner);
    let full = begun + inner;
    let closed = full.push("# END SELYNT_PANEL"@);
    assert(closed.drop_last() =~= full);
    lemma_unmarked(closed, b);
    assert(a + (seq!["# BEGIN SELYNT_PANEL"@] + inner.push("# END SELYNT_PANEL"@)) + b =~= closed + b);
}

proof fn lemma_unmarked(a: Seq<Seq<char>>, b: Seq<Seq<char>>)
    requires
        !is_open(a),
        forall|i: int| 0 <= i < b.len() ==> !is_begin(#[trigger] b[i]) && !is_end(b[i]),
    ensures
        !is_open(a + b),
        foreign(a + b) == foreign(a) + b,
    decreases b.len(),
{
    if b.len() == 0 {
        assert(a + b =~= a);
        assert(foreign(a) + b =~= foreign(a));
    } else {
        lemma_unmarked(a, b.drop_last());
        assert((a + b).drop_last() =~= a + b.drop_last());
        assert((a + b).last() == b[b.len() - 1]);
        assert(foreign(a) + b.drop_last() + seq![b.last()] =~= foreign(a) + b);
        assert((foreign(a) + b.drop_last()).push(b.last()) =~= foreign(a) + b);
    }
}

proof fn lemma_swallowed(a: Seq<Seq<char>>, b: Seq<Seq<char>>)
    requires
        is_open(a),
        forall|i: int| 0 <= i < b.len() ==> !is_begin(#[trigger] b[i]) && !is_end(b[i]),
    ensures
        is_open(a + b),
        foreign(a + b) == foreign(a),
    decreases b.len(),
{
    if b.len() == 0 {
        assert(a + b =~= a);
    } else {
        lemma_swallowed(a, b.drop_last());
        assert((a + b).drop_last() =~= a + b.drop_last());
        assert((a + b).last() == b[b.len() - 1]);
    }
}

/// A marker is one with white space behind it too.
pub proof fn law_markers_by_their_text(spaces: Seq<char>)
    requires
        forall|i: int| 0 <= i < spaces.len() ==> text::is_space(#[trigger] spaces[i]),
    ensures
        is_begin("# BEGIN SELYNT_PANEL"@ + spaces),
        is_end("# END SELYNT_PANEL"@ + spaces),
        !is_end("# BEGIN SELYNT_PANEL"@ + spaces),
        !is_begin("# END SELYNT_PANEL"@ + spaces),
{
    lemma_marks();
    lemma_spaces_behind("# BEGIN SELYNT_PANEL"@, spaces);
    lemma_spaces_behind("# END SELYNT_PANEL"@, spaces);
}

proof fn lemma_spaces_behind(m: Seq<char>, spaces: Seq<char>)
    requires
        forall|i: int| 0 <= i < spaces.len() ==> text::is_space(#[trigger] spaces[i]),
    ensures
        text::trimmed_end(m + spaces) == text::trimmed_end(m),
    decreases spaces.len(),
{
    let s = m + spaces;
    if spaces.len() == 0 {
        assert(s =~= m);
    } else {
        assert(s.last() == spaces[spaces.len() - 1]);
        assert(s.drop_last() =~= m + spaces.drop_last());
        lemma_spaces_behind(m, spaces.drop_last());
    }
}

/// A block is put first, and what else the file holds follows it.
pub proof fn law_blocks_are_put_first(existing: Seq<char>, block: Seq<char>)
    ensures
        upserted(Seq::empty(), block) == block.push('\n'),
        text::trimmed(others(existing)).len() > 0 ==> upserted(existing, block) == block.push('\n')
            + others(existing),
        text::trimmed(others(existing)).len() == 0 ==> upserted(existing, block) == block.push('\n'),
{
    reveal_strlit("\n");
    assert(block + "\n"@ =~= block.push('\n'));
    let none = Seq::<char>::empty();
    text::law_last_line_needs_no_feed(none);
    assert(foreign(text::lines(none)) =~= Seq::<Seq<char>>::empty());
    assert(others(none) =~= none);
    assert(none + none + none =~= none);
    text::law_trimming_takes_white_space(none, none, none);
}

/// The web server's configuration names its user behind the word `user`, quoted or
/// not; a line that is commented out names nobody.
pub proof fn law_configured_user_is_behind_its_word(name: Seq<char>)
    requires
        name.len() > 0,
        forall|i: int|
            0 <= i < name.len() ==> !text::is_space(#[trigger] name[i]) && name[i] != '"',
    ensures
        user_set("user"@ + seq![' '] + name) == Some(name),
        user_set("User"@ + seq![' ', ' '] + name) == Some(name),
        user_set("user"@ + seq![' '] + (seq!['"'] + name.push('"'))) == Some(name),
        user_set(seq!['#'] + name) is None,
        user_set(name) is None,
{
    reveal_strlit("user");
    reveal_strlit("User");
    text::law_ascii_white_space('u');
    text::law_ascii_white_space('U');
    text::law_ascii_white_space('s');
    text::law_ascii_white_space('e');
    text::law_ascii_white_space('r');
    text::law_ascii_white_space(' ');
    text::law_ascii_white_space('"');
    text::law_ascii_white_space('#');
    let none = Seq::<char>::empty();
    let quoted = seq!['"'] + name.push('"');
    lemma_two_words("user"@, seq![' '], name);
    lemma_two_words("User"@, seq![' ', ' '], name);
    assert forall|i: int| 0 <= i < quoted.len() implies !text::is_space(#[trigger] quoted[i]) by {
        if 1 <= i <= name.len() {
            assert(quoted[i] == name[i - 1]);
        }
    }
    lemma_two_words("user"@, seq![' '], quoted);
    assert(text::lower("user"@) =~= "user"@) by {
        assert forall|i: int| 0 <= i < 4 implies text::lower("user"@)[i] == "user"@[i] by {
            text::law_lower_case_moves_capitals("user"@, i);
        }
        text::law_lower_case_moves_capitals("user"@, 0);
    }
    assert(text::lower("User"@) =~= "user"@) by {
        assert forall|i: int| 0 <= i < 4 implies text::lower("User"@)[i] == "user"@[i] by {
            text::law_lower_case_moves_capitals("User"@, i);
        }
        text::law_lower_case_moves_capitals("User"@, 0);
    }
    assert(quoted.skip(1) =~= name.push('"'));
    assert(name.push('"').drop_last() =~= name);
    assert(name[0] != '"' && name[name.len() - 1] != '"');
    assert(unquoted_start(name) == name && unquoted_end(name) == name);
    assert(unquoted_start(name.push('"')) == name.push('"')) by {
        assert(name.push('"')[0] == name[0]);
    }
    assert(unquoted_start(quoted) == name.push('"')) by {
        assert(quoted[0] == '"');
    }
    assert(unquoted_end(name.push('"')) == name);
    let c = seq!['#'] + name;
    assert(c.last() == name[name.len() - 1] && c[0] == '#');
    assert(none + c + none =~= c);
    text::law_trimming_takes_white_space(none, c, none);
    assert(none + name + none =~= name);
    text::law_trimming_takes_white_space(none, name, none);
    assert(name + none =~= name);
    text::law_words_end_at_white_space(name, none);
    text::law_words_skip_white_space(' ', none);
    assert(text::words(name).len() == 1);
}

proof fn lemma_two_words(w: Seq<char>, gap: Seq<char>, v: Seq<char>)
    requires
        w.len() > 0 && v.len() > 0,
        gap == seq![' '] || gap == seq![' ', ' '],
        forall|i: int| 0 <= i < w.len() ==> !text::is_space(#[trigger] w[i]),
        forall|i: int| 0 <= i < v.len() ==> !text::is_space(#[trigger] v[i]),
    ensures
        text::trimmed(w + gap + v) == w + gap + v,
        text::words(w + gap + v) == seq![w, v],
        (w + gap + v)[0] == w[0],
{
    let none = Seq::<char>::empty();
    let s = w + gap + v;
    text::law_ascii_white_space(' ');
    assert(s[0] == w[0]);
    assert(s.last() == v[v.len() - 1]);
    assert(none + s + none =~= s);
    text::law_trimming_takes_white_space(none, s, none);
    text::law_words_end_at_white_space(w, gap + v);
    assert((gap + v)[0] == ' ');
    assert(w + (gap + v) =~= s);
    if gap == seq![' '] {
        text::law_words_skip_white_space(' ', v);
    } else {
        text::law_words_skip_white_space(' ', seq![' '] + v);
        text::law_words_skip_white_space(' ', v);
        assert(gap + v =~= seq![' '] + (seq![' '] + v));
    }
    assert(v + none =~= v);
    text::law_words_end_at_white_space(v, none);
    text::law_words_skip_white_space(' ', none);
    assert(text::words(s) =~= seq![w, v]);
}

/// The web server runs as the user that its configuration names and that there is;
/// without one it is the first of the usual accounts that there is.
pub proof fn law_web_user_is_the_first_that_exists(
    users: Seq<Seq<char>>,
    known: Seq<bool>,
    i: int,
)
    requires
        users.len() == known.len(),
        0 <= i < users.len(),
        known[i],
        forall|j: int| 0 <= j < i ==> !#[trigger] known[j],
    ensures
        first_existing(users, known) == Some(users[i]),
        possible_users(None) == seq!["apache"@, "lsws"@, "www-data"@, "nginx"@, "nobody"@],
    decreases users.len(),
{
    if i > 0 {
        assert(!known[0]);
        let ks = known.skip(1);
        assert forall|j: int| 0 <= j < i - 1 implies !#[trigger] ks[j] by {
            assert(ks[j] == known[j + 1]);
        }
        law_web_user_is_the_first_that_exists(users.skip(1), ks, i - 1);
    }
}

/// What the configuration names comes before the usual accounts.
pub proof fn law_configured_users_come_first(ls: Seq<Seq<char>>, line: Seq<char>, conf: Seq<char>)
    ensures
        users_set(Seq::empty()).len() == 0,
        users_set(ls.push(line)) == (match user_set(line) {
            Some(u) => users_set(ls).push(u),
            None => users_set(ls),
        }),
        possible_users(Some(conf)) == users_set(text::lines(conf)) + possible_users(None),
{
    assert(ls.push(line).drop_last() =~= ls);
}

/// A template is written among the customised ones, under its number, with the
/// panel's block put into what was there.
pub proof fn law_templates_are_customised(
    number: Seq<char>,
    existing: Seq<char>,
    block: Seq<char>,
)
    ensures
        ({
            let dir = path::under("/usr/local/directadmin/data/templates"@, "custom"@);
            let file = path::under(dir, "openlitespeed_vhost.conf.CUSTOM."@ + number + ".pre"@);
            &&& template_written(number, Some(existing), block) == seq![
                effect::StepV { change: effect::ChangeV::MakeDir(dir), must: true },
                effect::StepV {
                    change: effect::ChangeV::Write(file, upserted(existing, block)),
                    must: true,
                },
                effect::StepV { change: effect::ChangeV::SetMode(file, 420), must: true },
            ]
            &&& template_written(number, None, block) == template_written(
                number,
                Some(Seq::empty()),
                block,
            )
        }),
{
}

/// The user of the web server is recorded as a line of its own file, where one was
/// found.
pub proof fn law_web_user_is_recorded(user: Seq<char>)
    ensures
        user_recorded(None).len() == 0,
        ({
            let r = user_recorded(Some(user));
            let file = path::under(
                path::under("/usr/local/directadmin/plugins/selynt_panel"@, "etc"@),
                "ols_web_user"@,
            );
            &&& r.len() == 3
            &&& r[1].must && r[1].change == effect::ChangeV::Write(file, user + "\n"@)
            &&& r[2].must && r[2].change == effect::ChangeV::SetMode(file, 420)
        }),
{
}

} // verus!
