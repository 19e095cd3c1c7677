//! The language of the panel: the default of the server and the preference of
//! an account.

use vstd::prelude::*;

use crate::command;
use crate::effect;
use crate::effect::{Change, Steps};
use crate::path;
use crate::sys::output::{JsonV, Members};
use crate::sys::state::STATE_BASE;
use crate::text;

verus! {

/// A language code as it is compared: trimmed, in lower case, with `-` for `_`.
pub open spec fn normal_form(locale: Seq<char>) -> Seq<char> {
    text::replaced(text::lower(text::trimmed(locale)), "_"@, "-"@)
}

/// The code of the first dictionary in this language.
pub open spec fn dictionary(names: Seq<Seq<char>>, want: Seq<char>) -> Option<Seq<char>>
    decreases names.len(),
{
    if names.len() == 0 {
        None
    } else {
        let name = names[0];
        if ".json"@.is_suffix_of(name) && text::lower(name.take(name.len() - ".json"@.len()))
            == text::lower(want) {
            Some(name.take(name.len() - ".json"@.len()))
        } else {
            dictionary(names.skip(1), want)
        }
    }
}

/// The language that a code stands for: English is always there, any other one
/// as its dictionary is named.
pub open spec fn language(locale: Seq<char>, names: Seq<Seq<char>>) -> Option<Seq<char>> {
    let want = normal_form(locale);
    if want.len() == 0 {
        None
    } else if want == "en"@ {
        Some(want)
    } else {
        dictionary(names, want)
    }
}

/// Validates a language code against the dictionaries that are shipped, whose
/// file names are `names`.
pub fn validate_locale(locale: &str, names: &Vec<String>) -> (r: Option<String>)
    ensures
        command::opt(r) == language(locale@, text::views(names@)),
{
    proof {
        reveal_strlit("_");
    }
    let want = text::replace(&text::to_lower(&text::trim(locale)), "_", "-");
    if want.as_str().is_empty() {
        return None;
    }
    if text::same(&want, "en") {
        return Some(want);
    }
    let folded = text::to_lower(&want);
    let ghost vs = text::views(names@);
    let mut i: usize = 0;
    assert(vs.skip(0) =~= vs);
    while i < names.len()
        invariant
            vs == text::views(names@),
            want@ == normal_form(locale@),
            want@.len() > 0,
            want@ != "en"@,
            folded@ == text::lower(want@),
            i <= names@.len(),
            dictionary(vs, want@) == dictionary(vs.skip(i as int), want@),
        decreases names@.len() - i,
    {
        assert(vs.skip(i as int)[0] == names@[i as int]@);
        if let Some(code) = text::strip_suffix(&names[i], ".json") {
            if text::same(&text::to_lower(&code), &folded) {
                return Some(code);
            }
        }
        assert(vs.skip(i as int).skip(1) =~= vs.skip(i + 1));
        i = i + 1;
    }
    None
}

/// What becomes of a language setting: removed, or stored under this code.
pub enum LocalePlan {
    Clear { file: String },
    Store { code: String, steps: Steps },
}

/// Storing a language, for everybody to read.
pub open spec fn locale_stored(file: Seq<char>, code: Seq<char>) -> Seq<effect::StepV> {
    seq![
        effect::needed(effect::ChangeV::Write(file, code + "\n"@)),
        effect::tried(effect::ChangeV::SetMode(file, 0o644)),
    ]
}

/// Whether a setting is being cleared.
pub open spec fn is_cleared(locale: Seq<char>) -> bool {
    text::trimmed(locale).len() == 0
}

/// The code that a setting then has; none where the language is unknown.
pub open spec fn stored_code(locale: Seq<char>, names: Seq<Seq<char>>) -> Option<Seq<char>> {
    if is_cleared(locale) {
        Some(Seq::empty())
    } else {
        language(locale, names)
    }
}

fn unknown_language() -> (r: (String, String))
    ensures
        r.0@ == "invalid_locale"@,
        r.1@ == "Unknown language code."@,
{
    ("invalid_locale".to_string(), "Unknown language code.".to_string())
}

/// Stores a language in `file`, or removes the file when there is none to
/// store.
pub fn write_locale(file: &str, locale: &str, names: &Vec<String>) -> (r: Result<
    LocalePlan,
    (String, String),
>)
    ensures
        match r {
            Ok(LocalePlan::Clear { file: f }) => is_cleared(locale@) && f@ == file@,
            Ok(LocalePlan::Store { code, steps }) => !is_cleared(locale@) && language(
                locale@,
                text::views(names@),
            ) == Some(code@) && steps@ == locale_stored(file@, code@),
            Err(e) => !is_cleared(locale@) && language(locale@, text::views(names@)) is None
                && e.0@ == "invalid_locale"@ && e.1@ == "Unknown language code."@,
        },
{
    let bare = text::trim(locale);
    let cs = text::chars(&bare);
    if cs.len() == 0 {
        return Ok(LocalePlan::Clear { file: file.to_string() });
    }
    match validate_locale(locale, names) {
        None => Err(unknown_language()),
        Some(code) => {
            let mut steps = Steps::new();
            steps.need(Change::Write(file.to_string(), text::cat(&code, "\n")));
            steps.try_to(Change::SetMode(file.to_string(), 0o644));
            assert(steps@ =~= locale_stored(file@, code@));
            Ok(LocalePlan::Store { code, steps })
        },
    }
}

/// A setting of the language: what to change and the member of the answer.
pub struct LocaleSetting {
    pub plan: LocalePlan,
    pub owner: Steps,
    pub answer: Members,
}

/// The code that a plan leaves behind.
pub open spec fn code_of(p: LocalePlan) -> Seq<char> {
    match p {
        LocalePlan::Clear { .. } => Seq::empty(),
        LocalePlan::Store { code, .. } => code@,
    }
}

fn answer_with(key: &str, p: &LocalePlan) -> (r: Members)
    ensures
        r@ == seq![(key@, JsonV::Str(code_of(*p)))],
{
    let mut m = Members::new();
    match p {
        LocalePlan::Clear { .. } => {
            let none = String::new();
            assert(none@ =~= Seq::<char>::empty());
            m.put_text(key, &none);
        },
        LocalePlan::Store { code, .. } => {
            m.put_text(key, code);
        },
    }
    assert(m@ =~= seq![(key@, JsonV::Str(code_of(*p)))]);
    m
}

/// Sets the default language of the server. An empty one clears it.
pub fn set_locale_global(locale: &str, names: &Vec<String>) -> (r: Result<
    LocaleSetting,
    (String, String),
>)
    ensures
        ({
            let file = path::under(STATE_BASE@, "locale"@);
            match r {
                Ok(s) => {
                    &&& stored_code(locale@, text::views(names@)) == Some(code_of(s.plan))
                    &&& match s.plan {
                        LocalePlan::Clear { file: f } => is_cleared(locale@) && f@ == file,
                        LocalePlan::Store { code, steps } => !is_cleared(locale@) && steps@
                            == locale_stored(file, code@),
                    }
                    &&& s.owner@ == Seq::<effect::StepV>::empty()
                    &&& s.answer@ == seq![("global"@, JsonV::Str(code_of(s.plan)))]
                },
                Err(e) => stored_code(locale@, text::views(names@)) is None && e.0@
                    == "invalid_locale"@ && e.1@ == "Unknown language code."@,
            }
        }),
{
    let file = path::join(STATE_BASE, "locale");
    match write_locale(&file, locale, names) {
        Err(e) => Err(e),
        Ok(plan) => {
            let answer = answer_with("global", &plan);
            Ok(LocaleSetting { plan, owner: Steps::new(), answer })
        },
    }
}

/// Sets the language of an account, in a file that is the account's own. An
/// empty one clears it.
pub fn set_locale_user(state_dir: &str, locale: &str, names: &Vec<String>, uid: u32, gid: u32) -> (r:
    Result<LocaleSetting, (String, String)>)
    ensures
        ({
            let file = path::under(state_dir@, "locale"@);
            match r {
                Ok(s) => {
                    &&& stored_code(locale@, text::views(names@)) == Some(code_of(s.plan))
                    &&& match s.plan {
                        LocalePlan::Clear { file: f } => is_cleared(locale@) && f@ == file,
                        LocalePlan::Store { code, steps } => !is_cleared(locale@) && steps@
                            == locale_stored(file, code@),
                    }
                    &&& s.owner@ == (if code_of(s.plan).len() > 0 {
                        seq![effect::tried(effect::ChangeV::Own(file, uid as int, gid as int))]
                    } else {
                        Seq::empty()
                    })
                    &&& s.answer@ == seq![("pref"@, JsonV::Str(code_of(s.plan)))]
                },
                Err(e) => stored_code(locale@, text::views(names@)) is None && e.0@
                    == "invalid_locale"@ && e.1@ == "Unknown language code."@,
            }
        }),
{
    let file = path::join(state_dir, "locale");
    match write_locale(&file, locale, names) {
        Err(e) => Err(e),
        Ok(plan) => {
            let answer = answer_with("pref", &plan);
            let mut owner = Steps::new();
            if let LocalePlan::Store { code, .. } = &plan {
                if !code.as_str().is_empty() {
                    owner.try_to(Change::Own(file, uid, gid));
                }
            }
            assert(owner@ =~= if code_of(plan).len() > 0 {
                seq![
                    effect::tried(
                        effect::ChangeV::Own(
                            path::under(state_dir@, "locale"@),
                            uid as int,
                            gid as int,
                        ),
                    ),
                ]
            } else {
                Seq::empty()
            });
            Ok(LocaleSetting { plan, owner, answer })
        },
    }
}

/// A language code is compared without regard to white space around it and to case,
/// and with `_` and `-` as the same; English needs no dictionary.
pub proof fn law_languages_are_found_by_code(names: Seq<Seq<char>>, code: Seq<char>, more: Seq<Seq<char>>)
    requires
        forall|i: int|
            0 <= i < names.len() ==> !".json"@.is_suffix_of(#[trigger] names[i]) || text::lower(
                names[i].take(names[i].len() - 5),
            ) != text::lower(code),
    ensures
        dictionary(names, code) is None,
        dictionary(names.push(code + ".json"@) + more, code) == Some(code),
    decreases names.len(),
{
    reveal_strlit(".json");
    assert(".json"@.len() == 5);
    let file = code + ".json"@;
    assert(file.skip(file.len() - 5) =~= ".json"@);
    assert(".json"@.is_suffix_of(file));
    assert(file.take(file.len() - 5) =~= code);
    let all = names.push(file) + more;
    if names.len() == 0 {
        assert(all[0] == file);
    } else {
        let rest = names.skip(1);
        assert forall|i: int| 0 <= i < rest.len() implies !".json"@.is_suffix_of(
            #[trigger] rest[i],
        ) || text::lower(rest[i].take(rest[i].len() - 5)) != text::lower(code) by {
            assert(rest[i] == names[i + 1]);
        }
        assert(all[0] == names[0]);
        assert(all.skip(1) =~= rest.push(file) + more);
        law_languages_are_found_by_code(rest, code, more);
    }
}

/// A setting is cleared by an empty code. Another one is stored as the dictionary is
/// named, and one without a dictionary is not stored.
pub proof fn law_settings_are_stored_as_named(
    locale: Seq<char>,
    names: Seq<Seq<char>>,
    file: Seq<char>,
    code: Seq<char>,
)
    ensures
        text::trimmed(locale).len() == 0 ==> stored_code(locale, names) == Some(Seq::<char>::empty()),
        text::trimmed(locale).len() > 0 && normal_form(locale) == "en"@ ==> stored_code(
            locale,
            names,
        ) == Some("en"@),
        text::trimmed(locale).len() > 0 && normal_form(locale).len() > 0 && normal_form(locale)
            != "en"@ ==> stored_code(locale, names) == dictionary(names, normal_form(locale)),
        locale_stored(file, code).len() == 2,
        locale_stored(file, code)[0].must,
        locale_stored(file, code)[0].change == effect::ChangeV::Write(file, code + "\n"@),
        locale_stored(file, code)[1].change == effect::ChangeV::SetMode(file, 420),
{
    reveal_strlit("en");
}

/// The form in which a code is compared is in lower case and has no `_`.
pub proof fn law_compared_form(a: Seq<char>, b: Seq<char>)
    requires
        a.len() > 0 && b.len() > 0,
        forall|i: int| 0 <= i < a.len() ==> 'a' <= #[trigger] a[i] <= 'z',
        forall|i: int| 0 <= i < b.len() ==> 'a' <= #[trigger] b[i] <= 'z',
    ensures
        normal_form(a) == a,
        normal_form(a.push('_') + b) == a.push('-') + b,
        normal_form(a.push('-') + b) == a.push('-') + b,
        normal_form(seq![' '] + a.push(' ')) == a,
{
    let none = Seq::<char>::empty();
    reveal_strlit("_");
    reveal_strlit("-");
    text::law_ascii_white_space(' ');
    text::law_ascii_white_space(a[0]);
    text::law_ascii_white_space(a[a.len() - 1]);
    text::law_ascii_white_space(b[b.len() - 1]);
    lemma_small_letters(a);
    assert(none + a + none =~= a);
    text::law_trimming_takes_white_space(none, a, none);
    lemma_no_underscore(a);
    let u = a.push('_') + b;
    let h = a.push('-') + b;
    assert(u[0] == a[0] && h[0] == a[0] && u.last() == b[b.len() - 1] && h.last() == b[b.len() - 1]);
    assert(none + u + none =~= u);
    assert(none + h + none =~= h);
    text::law_trimming_takes_white_space(none, u, none);
    text::law_trimming_takes_white_space(none, h, none);
    lemma_small_letters(u);
    lemma_small_letters(h);
    assert forall|i: int| 0 <= i < h.len() implies h[i] != '_' by {
        if i > a.len() {
            assert(h[i] == b[i - a.len() - 1]);
        }
    }
    lemma_no_underscore(h);
    lemma_no_underscore(b);
    assert(u =~= a + "_"@ + b);
    assert forall|i: int| 0 <= i < a.len() implies !"_"@.is_prefix_of(
        #[trigger] (a + "_"@ + b).skip(i),
    ) by {
        assert((a + "_"@ + b).skip(i)[0] == a[i]);
        assert("_"@[0] == '_');
    }
    text::law_replacing_leaves_the_rest(a, "_"@, b, "-"@);
    assert(a + "-"@ + b =~= h);
    let sp = seq![' '];
    assert(sp + a + sp =~= sp + a.push(' '));
    text::law_trimming_takes_white_space(sp, a, sp);
}

proof fn lemma_small_letters(s: Seq<char>)
    requires
        forall|i: int| 0 <= i < s.len() ==> !('A' <= #[trigger] s[i] <= 'Z'),
    ensures
        text::lower(s) == s,
{
    assert(text::lower(s).len() == s.len());
    assert forall|i: int| 0 <= i < s.len() implies text::lower(s)[i] == s[i] by {
        text::law_lower_case_moves_capitals(s, i);
        assert(!('A' <= s[i] <= 'Z'));
    }
    assert(text::lower(s) =~= s);
}

proof fn lemma_no_underscore(s: Seq<char>)
    requires
        forall|i: int| 0 <= i < s.len() ==> #[trigger] s[i] != '_',
    ensures
        text::replaced(s, "_"@, "-"@) == s,
{
    reveal_strlit("_");
    assert forall|i: int| 0 <= i < s.len() implies !"_"@.is_prefix_of(#[trigger] s.skip(i)) by {
        assert(s.skip(i)[0] == s[i]);
        assert("_"@[0] == '_');
    }
    text::law_nothing_to_replace(s, "_"@, "-"@);
}

} // verus!
