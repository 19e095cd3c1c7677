//! Undoes what the setup put in place: the same files, the same markers, the
//! same web server.

use vstd::prelude::*;

use crate::count;
use crate::path;
use crate::sys::output;
use crate::sys::output::{Json, JsonV, Members, Response};
use crate::text;
use crate::webserver::ols;
use crate::webserver::ols::Stripped;
use crate::webserver::proxysync;

verus! {

/// How many apps are stopped, of all the accounts: those whose metadata can be
/// loaded.
pub fn stop_all_apps(loaded: &Vec<bool>) -> (r: usize)
    ensures
        r as nat == count::trues(loaded@),
{
    count::count_true(loaded)
}

/// What became of a template: what was done, not what was attempted. One that
/// could not be rewritten still carries the panel's block.
pub fn strip_outcome(what: &Stripped, succeeded: bool) -> (r: &'static str)
    ensures
        r@ == (match what {
            Stripped::Remove => if succeeded {
                "removed"@
            } else {
                "remove_failed"@
            },
            Stripped::Keep(_) => if succeeded {
                "stripped"@
            } else {
                "strip_failed"@
            },
        }),
{
    match what {
        Stripped::Remove => if succeeded {
            "removed"
        } else {
            "remove_failed"
        },
        Stripped::Keep(_) => if succeeded {
            "stripped"
        } else {
            "strip_failed"
        },
    }
}

/// How the fate of a template is told.
pub fn template_line(number: &str, what: &str) -> (r: String)
    ensures
        r@ == "CUSTOM."@ + number@ + ": "@ + what@,
{
    let mut line = "CUSTOM.".to_string();
    line.append(number);
    line.append(": ");
    line.append(what);
    line
}

/// Whether a line of the web server's configuration is the panel's.
pub open spec fn is_include(line: Seq<char>) -> bool {
    text::occurs(line, "selynt_extprocessors"@) || text::occurs(
        line,
        "selynt_panel extProcessors include"@,
    )
}

/// The lines that are not the panel's.
pub open spec fn without_includes(ls: Seq<Seq<char>>) -> Seq<Seq<char>>
    decreases ls.len(),
{
    if ls.len() == 0 {
        Seq::empty()
    } else if is_include(ls.last()) {
        without_includes(ls.drop_last())
    } else {
        without_includes(ls.drop_last()).push(ls.last())
    }
}

/// The web server's configuration without the line that includes the panel's
/// handlers; nothing where it holds none. The line points at a file that is
/// about to be gone.
pub fn clean_main_conf(content: &str) -> (r: Option<String>)
    ensures
        match r {
            Some(c) => text::occurs(content@, "selynt_extprocessors"@) && c@ == text::closed_lines(
                without_includes(text::lines(content@)),
            ),
            None => !text::occurs(content@, "selynt_extprocessors"@),
        },
{
    if !text::contains(content, "selynt_extprocessors") {
        return None;
    }
    let ls = text::split_lines(content);
    let ghost vs = text::views(ls@);
    let mut kept: Vec<String> = Vec::new();
    let mut i: usize = 0;
    assert(text::views(kept@) =~= without_includes(vs.take(0)));
    while i < ls.len()
        invariant
            vs == text::views(ls@),
            i <= ls@.len(),
            text::views(kept@) == without_includes(vs.take(i as int)),
        decreases ls@.len() - i,
    {
        let ghost before = text::views(kept@);
        assert(vs.take(i + 1).drop_last() =~= vs.take(i as int));
        assert(vs.take(i + 1).last() == ls@[i as int]@);
        if !(text::contains(&ls[i], "selynt_extprocessors") || text::contains(
            &ls[i],
            "selynt_panel extProcessors include",
        )) {
            let line = ls[i].clone();
            kept.push(line);
            assert(text::views(kept@) =~= before.push(line@));
        }
        i = i + 1;
    }
    assert(vs.take(i as int) =~= vs);
    Some(text::close_lines(&kept))
}

/// The files of the web server's configuration that the panel wrote.
pub open spec fn handler_files(dir: Seq<char>) -> Seq<Seq<char>> {
    let conf = path::under(dir, proxysync::HANDLER_FILE@);
    seq![conf, conf + ".tmp"@]
}

/// The files of the web server's configuration that the panel wrote, in both of
/// the places where that may be.
pub fn clean_web_server_config() -> (r: Vec<String>)
    ensures
        text::views(r@) == handler_files(ols::CONF_NEW@) + handler_files(ols::CONF_OLD@),
{
    let new = path::join(ols::CONF_NEW, proxysync::HANDLER_FILE);
    let old_one = path::join(ols::CONF_OLD, proxysync::HANDLER_FILE);
    let mut out: Vec<String> = Vec::new();
    let new_tmp = text::cat(&new, ".tmp");
    let old_tmp = text::cat(&old_one, ".tmp");
    out.push(new);
    out.push(new_tmp);
    out.push(old_one);
    out.push(old_tmp);
    assert(text::views(out@) =~= handler_files(ols::CONF_NEW@) + handler_files(ols::CONF_OLD@));
    out
}

/// How a failure is told.
pub fn failure_line(file: &str, error: &str) -> (r: String)
    ensures
        r@ == file@ + ": "@ + error@,
{
    let mut line = file.to_string();
    line.append(": ");
    line.append(error);
    line
}

/// A step of a teardown.
#[derive(Debug, Clone, Copy, PartialEq, Eq, Structural)]
pub enum TeardownStep {
    /// The units go first: a timer that fires in between would bring back what
    /// is being removed.
    RemoveUnits,
    StopApps,
    /// The state directory goes once the apps are down: stopping reads from it.
    RemoveState,
    StripTemplates,
    CleanConfig,
    /// The vhosts carry the panel's blocks until they are made again from the
    /// templates that no longer have them.
    RebuildVhosts,
    ReloadWebServer,
}

pub open spec fn teardown_order() -> Seq<TeardownStep> {
    seq![
        TeardownStep::RemoveUnits,
        TeardownStep::StopApps,
        TeardownStep::RemoveState,
        TeardownStep::StripTemplates,
        TeardownStep::CleanConfig,
        TeardownStep::RebuildVhosts,
        TeardownStep::ReloadWebServer,
    ]
}

/// Removes everything the panel installed, leaving the server as it was: the
/// steps, in order. None of them keeps the next from being taken.
pub fn run() -> (r: Vec<TeardownStep>)
    ensures
        r@ == teardown_order(),
{
    let mut out: Vec<TeardownStep> = Vec::new();
    out.push(TeardownStep::RemoveUnits);
    out.push(TeardownStep::StopApps);
    out.push(TeardownStep::RemoveState);
    out.push(TeardownStep::StripTemplates);
    out.push(TeardownStep::CleanConfig);
    out.push(TeardownStep::RebuildVhosts);
    out.push(TeardownStep::ReloadWebServer);
    assert(out@ =~= teardown_order());
    out
}

/// What a teardown did.
pub struct TeardownReport {
    pub units_removed: usize,
    pub apps_stopped: usize,
    pub templates: Vec<String>,
    pub vhosts_rebuilt: bool,
    pub web_server_reloaded: bool,
    pub config_cleanup_failures: Vec<String>,
}

/// What a teardown says.
pub open spec fn teardown_view(t: TeardownReport) -> Seq<(Seq<char>, JsonV)> {
    seq![
        ("units_removed"@, JsonV::Num(t.units_removed as nat)),
        ("apps_stopped"@, JsonV::Num(t.apps_stopped as nat)),
        ("templates"@, JsonV::List(output::text_views(text::views(t.templates@)))),
        ("vhosts_rebuilt"@, JsonV::Bool(t.vhosts_rebuilt)),
        ("web_server_reloaded"@, JsonV::Bool(t.web_server_reloaded)),
        (
            "config_cleanup_failures"@,
            JsonV::List(output::text_views(text::views(t.config_cleanup_failures@))),
        ),
    ]
}

/// Answers a teardown.
pub fn cmd_teardown(t: &TeardownReport, debug: Option<Json>) -> (r: Response)
    ensures
        r@ == output::accepted(output::debugged(teardown_view(*t), output::debug_view(debug))),
{
    let mut m = Members::new();
    m.put_number("units_removed", t.units_removed as u64);
    m.put_number("apps_stopped", t.apps_stopped as u64);
    m.put("templates", output::strings(&t.templates));
    m.put_bool("vhosts_rebuilt", t.vhosts_rebuilt);
    m.put_bool("web_server_reloaded", t.web_server_reloaded);
    m.put("config_cleanup_failures", output::strings(&t.config_cleanup_failures));
    assert(m@ =~= teardown_view(*t));
    output::success(output::with_debug(m, debug))
}

proof fn lemma_without_includes(ls: Seq<Seq<char>>)
    ensures
        forall|i: int|
            0 <= i < without_includes(ls).len() ==> !is_include(#[trigger] without_includes(ls)[i])
                && ls.contains(without_includes(ls)[i]),
    decreases ls.len(),
{
    if ls.len() > 0 {
        let front = ls.drop_last();
        let kept = without_includes(front);
        lemma_without_includes(front);
        assert forall|i: int| 0 <= i < without_includes(ls).len() implies !is_include(
            #[trigger] without_includes(ls)[i],
        ) && ls.contains(without_includes(ls)[i]) by {
            if i < kept.len() {
                assert(without_includes(ls)[i] == kept[i]);
                assert(front.contains(kept[i]));
                let j = choose|j: int| 0 <= j < front.len() && front[j] == kept[i];
                assert(ls[j] == kept[i]);
            } else {
                assert(ls[ls.len() - 1] == ls.last());
            }
        }
    }
}

proof fn lemma_include_without_cr(line: Seq<char>)
    ensures
        is_include(text::without_cr(line)) ==> is_include(line),
{
    let t = text::without_cr(line);
    assert forall|p: Seq<char>| #[trigger] text::occurs(t, p) implies text::occurs(line, p) by {
        let i = choose|i: int| #[trigger] text::occurs_at(t, p, i);
        assert(line.subrange(i, i + p.len()) =~= t.subrange(i, i + p.len()));
        assert(text::occurs_at(line, p, i));
    }
}

/// After a teardown no line of the web server's configuration refers to the
/// panel's handlers, and every line that is left was there before, but for a
/// carriage return that it may have ended with.
pub proof fn law_cleaned_config_forgets_the_panel(content: Seq<char>, i: int)
    requires
        0 <= i < text::lines(
            text::closed_lines(without_includes(text::lines(content))),
        ).len(),
    ensures
        ({
            let line = text::lines(
                text::closed_lines(without_includes(text::lines(content))),
            )[i];
            &&& !is_include(line)
            &&& exists|j: int|
                0 <= j < text::lines(content).len() && text::without_cr(
                    #[trigger] text::lines(content)[j],
                ) == line
            &&& (forall|j: int|
                0 <= j < text::lines(content).len() ==> text::is_plain_line(
                    #[trigger] text::lines(content)[j],
                )) ==> text::lines(content).contains(line)
        }),
{
    let ls = text::lines(content);
    let kept = without_includes(ls);
    lemma_without_includes(ls);
    text::lemma_lines_hold_no_feed(content);
    assert forall|k: int| 0 <= k < kept.len() implies !(#[trigger] kept[k]).contains('\n') by {
        let j = choose|j: int| 0 <= j < ls.len() && ls[j] == kept[k];
        assert(!ls[j].contains('\n'));
    }
    text::lemma_closed_lines_are_bare(kept);
    lemma_include_without_cr(kept[i]);
    let j = choose|j: int| 0 <= j < ls.len() && ls[j] == kept[i];
    assert(text::without_cr(ls[j]) == text::bare(kept)[i]);
}

/// A teardown removes the units before it stops the apps, and the apps before their
/// state; the web server is told last.
pub proof fn law_teardown_goes_backwards()
    ensures
        teardown_order() == seq![
            TeardownStep::RemoveUnits,
            TeardownStep::StopApps,
            TeardownStep::RemoveState,
            TeardownStep::StripTemplates,
            TeardownStep::CleanConfig,
            TeardownStep::RebuildVhosts,
            TeardownStep::ReloadWebServer,
        ],
{
}

/// A line is the panel's when it names the file of handlers or the comment above it;
/// no other line is taken out.
pub proof fn law_only_the_panels_lines_are_taken_out(
    ls: Seq<Seq<char>>,
    a: Seq<char>,
    b: Seq<char>,
    line: Seq<char>,
)
    ensures
        without_includes(Seq::empty()).len() == 0,
        without_includes(ls.push(a + "selynt_extprocessors"@ + b)) == without_includes(ls),
        without_includes(ls.push(a + "selynt_panel extProcessors include"@ + b))
            == without_includes(ls),
        !text::occurs(line, "selynt_extprocessors"@) && !text::occurs(
            line,
            "selynt_panel extProcessors include"@,
        ) ==> without_includes(ls.push(line)) == without_includes(ls).push(line),
{
    let x = a + "selynt_extprocessors"@ + b;
    let y = a + "selynt_panel extProcessors include"@ + b;
    text::law_occurring_is_standing_between(x, "selynt_extprocessors"@);
    text::law_occurring_is_standing_between(y, "selynt_panel extProcessors include"@);
    assert(ls.push(x).drop_last() =~= ls);
    assert(ls.push(y).drop_last() =~= ls);
    assert(ls.push(line).drop_last() =~= ls);
}

/// The file of handlers goes, and the one that it was being written to.
pub proof fn law_handler_files_go(dir: Seq<char>)
    ensures
        handler_files(dir) == seq![
            path::under(dir, "selynt_extprocessors.conf"@),
            path::under(dir, "selynt_extprocessors.conf"@) + ".tmp"@,
        ],
{
}

} // verus!
