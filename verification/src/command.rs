//! A command to run: the program, its arguments and what it changes in the
//! environment it inherits.

use vstd::prelude::*;

use crate::text;

verus! {

/// A command to run. `env` lists the variables to set, or to remove where there
/// is no value, in order; a later entry overrides an earlier one.
#[derive(Debug, PartialEq, Eq)]
pub struct CommandLine {
    pub program: String,
    pub args: Vec<String>,
    pub env: Vec<(String, Option<String>)>,
    pub current_dir: Option<String>,
}

#[verifier::ext_equal]
pub struct CommandV {
    pub program: Seq<char>,
    pub args: Seq<Seq<char>>,
    pub env: Seq<(Seq<char>, Option<Seq<char>>)>,
    pub current_dir: Option<Seq<char>>,
}

pub open spec fn opt(s: Option<String>) -> Option<Seq<char>> {
    match s {
        Some(t) => Some(t@),
        None => None,
    }
}

pub open spec fn env_views(v: Seq<(String, Option<String>)>) -> Seq<(Seq<char>, Option<Seq<char>>)> {
    Seq::new(v.len(), |i: int| (v[i].0@, opt(v[i].1)))
}

impl View for CommandLine {
    type V = CommandV;

    open spec fn view(&self) -> CommandV {
        CommandV {
            program: self.program@,
            args: text::views(self.args@),
            env: env_views(self.env@),
            current_dir: opt(self.current_dir),
        }
    }
}

impl CommandLine {
    pub fn new(program: &str) -> (r: CommandLine)
        ensures
            r@ == (CommandV {
                program: program@,
                args: Seq::empty(),
                env: Seq::empty(),
                current_dir: None,
            }),
    {
        let r = CommandLine {
            program: program.to_string(),
            args: Vec::new(),
            env: Vec::new(),
            current_dir: None,
        };
        assert(r@.args =~= Seq::<Seq<char>>::empty());
        assert(r@.env =~= Seq::<(Seq<char>, Option<Seq<char>>)>::empty());
        r
    }

    pub fn arg(&mut self, a: &str)
        ensures
            final(self)@ == (CommandV { args: old(self)@.args.push(a@), ..old(self)@ }),
    {
        let ghost before = self@;
        self.args.push(a.to_string());
        assert(self@.args =~= before.args.push(a@));
    }

    pub fn args(&mut self, all: &Vec<String>)
        ensures
            final(self)@ == (CommandV { args: old(self)@.args + text::views(all@), ..old(self)@ }),
    {
        let ghost before = self@;
        let mut i: usize = 0;
        assert(before.args + text::views(all@).take(0) =~= before.args);
        while i < all.len()
            invariant
                i <= all@.len(),
                self@ == (CommandV {
                    args: before.args + text::views(all@).take(i as int),
                    ..before
                }),
            decreases all@.len() - i,
        {
            self.arg(&all[i]);
            assert(before.args + text::views(all@).take(i + 1) =~= (before.args + text::views(
                all@,
            ).take(i as int)).push(all@[i as int]@));
            i = i + 1;
        }
        assert(text::views(all@).take(i as int) =~= text::views(all@));
    }

    pub fn env(&mut self, key: &str, value: &str)
        ensures
            final(self)@ == (CommandV {
                env: old(self)@.env.push((key@, Some(value@))),
                ..old(self)@
            }),
    {
        let ghost before = self@;
        self.env.push((key.to_string(), Some(value.to_string())));
        assert(self@.env =~= before.env.push((key@, Some(value@))));
    }

    pub fn in_dir(&mut self, dir: &str)
        ensures
            final(self)@ == (CommandV { current_dir: Some(dir@), ..old(self)@ }),
    {
        self.current_dir = Some(dir.to_string());
    }

    /// Runs `inner` as the last arguments of this command, in the environment
    /// that `inner` asks for.
    pub fn run(&mut self, inner: &CommandLine)
        ensures
            final(self)@ == running(old(self)@, inner@),
    {
        let ghost before = self@;
        self.arg(&inner.program);
        self.args(&inner.args);
        let mut i: usize = 0;
        let ghost es = env_views(inner.env@);
        let ghost mid = self@;
        assert(mid.env + es.take(0) =~= mid.env);
        while i < inner.env.len()
            invariant
                es == env_views(inner.env@),
                i <= inner.env@.len(),
                self@ == (CommandV { env: mid.env + es.take(i as int), ..mid }),
            decreases inner.env@.len() - i,
        {
            let ghost now = self@;
            let value = match &inner.env[i].1 {
                Some(v) => Some(v.clone()),
                None => None,
            };
            self.env.push((inner.env[i].0.clone(), value));
            assert(self@.env =~= now.env.push(es[i as int]));
            assert(mid.env + es.take(i + 1) =~= now.env.push(es[i as int]));
            i = i + 1;
        }
        assert(es.take(i as int) =~= es);
        assert(self@.args =~= before.args.push(inner@.program) + inner@.args);
    }
}

/// `outer` with `inner` as its last arguments and `inner`'s environment.
pub open spec fn running(outer: CommandV, inner: CommandV) -> CommandV {
    CommandV {
        args: outer.args.push(inner.program) + inner.args,
        env: outer.env + inner.env,
        ..outer
    }
}

} // verus!
