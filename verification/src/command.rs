//! The command model: what a caller asks the runner to execute.
//!
//! A command is a program path, an ordered argument list, an ordered list of
//! environment overrides (set a variable, or remove an inherited one), and an
//! optional explicit working directory. It is a plain value: building one
//! performs no I/O, and spawning happens elsewhere, from the finished value.

use vstd::prelude::*;

verus! {

/// Mathematical view of a [`CommandSpec`]: every string as a sequence of
/// characters.
pub ghost struct CommandSpecView {
    /// Path of the program to execute.
    pub program: Seq<char>,
    /// Arguments handed to the program, in order.
    pub args: Seq<Seq<char>>,
    /// Environment overrides, in the order they were requested. `None` means
    /// the variable is removed from the inherited environment.
    pub envs: Seq<(Seq<char>, Option<Seq<char>>)>,
    /// Explicit working directory; `None` means the caller's own is kept.
    pub cwd: Option<Seq<char>>,
}

/// A command to run: program, arguments, environment overrides and working
/// directory. Immutable once handed to a spawn operation.
pub struct CommandSpec {
    program: String,
    args: Vec<String>,
    envs: Vec<(String, Option<String>)>,
    cwd: Option<String>,
}

impl View for CommandSpec {
    type V = CommandSpecView;

    closed spec fn view(&self) -> CommandSpecView {
        CommandSpecView {
            program: self.program@,
            args: self.args.deep_view(),
            envs: self.envs.deep_view(),
            cwd: self.cwd.deep_view(),
        }
    }
}

impl CommandSpec {
    /// Creates a command for the given program, with no arguments, no
    /// environment overrides and no explicit working directory.
    pub fn new(program: String) -> (r: Self)
        ensures
            r@ == (CommandSpecView {
                program: program@,
                args: Seq::<Seq<char>>::empty(),
                envs: Seq::<(Seq<char>, Option<Seq<char>>)>::empty(),
                cwd: None,
            }),
    {
        let r = CommandSpec { program, args: Vec::new(), envs: Vec::new(), cwd: None };
        proof {
            assert(r@.args =~= Seq::<Seq<char>>::empty());
            assert(r@.envs =~= Seq::<(Seq<char>, Option<Seq<char>>)>::empty());
        }
        r
    }

    /// Appends one argument.
    pub fn arg(&mut self, a: String)
        ensures
            final(self)@ == (CommandSpecView { args: old(self)@.args.push(a@), ..old(self)@ }),
    {
        self.args.push(a);
        proof {
            assert(self@.args =~= old(self)@.args.push(a@));
        }
    }

    /// Appends every argument of `list`, in order.
    pub fn args(&mut self, list: Vec<String>)
        ensures
            final(self)@ == (CommandSpecView {
                args: old(self)@.args + list.deep_view(),
                ..old(self)@
            }),
    {
        let n = list.len();
        let mut i: usize = 0;
        while i < n
            invariant
                i <= n,
                n == list.len(),
                self.args@ =~= old(self).args@ + list@.take(i as int),
                self.program == old(self).program,
                self.envs == old(self).envs,
                self.cwd == old(self).cwd,
            decreases n - i,
        {
            let a = list[i].clone();
            self.args.push(a);
            proof {
                assert(list@.take(i as int + 1)
                    =~= list@.take(i as int).push(list@[i as int]));
            }
            i = i + 1;
        }
        proof {
            assert(list@.take(n as int) =~= list@);
            assert(self.args@ == old(self).args@ + list@);
            assert forall|k: int| 0 <= k < self@.args.len() implies
                self@.args[k] == (old(self)@.args + list.deep_view())[k] by {
                assert(self.args@[k] == (old(self).args@ + list@)[k]);
            }
            assert(self@.args =~= old(self)@.args + list.deep_view());
        }
    }

    /// Requests that the child see `name` set to `value`, overriding any
    /// inherited value and any earlier override of the same name.
    pub fn env(&mut self, name: String, value: String)
        ensures
            final(self)@ == (CommandSpecView {
                envs: old(self)@.envs.push((name@, Some(value@))),
                ..old(self)@
            }),
    {
        self.envs.push((name, Some(value)));
        proof {
            assert(self@.envs =~= old(self)@.envs.push((name@, Some(value@))));
        }
    }

    /// Requests that the child not see `name`, even if it is inherited, and
    /// overriding any earlier override of the same name.
    pub fn env_remove(&mut self, name: String)
        ensures
            final(self)@ == (CommandSpecView {
                envs: old(self)@.envs.push((name@, None)),
                ..old(self)@
            }),
    {
        self.envs.push((name, None));
        proof {
            assert(self@.envs =~= old(self)@.envs.push((name@, None)));
        }
    }

    /// Sets the explicit working directory for the child.
    pub fn current_dir(&mut self, dir: String)
        ensures
            final(self)@ == (CommandSpecView { cwd: Some(dir@), ..old(self)@ }),
    {
        self.cwd = Some(dir);
    }

    /// The program path.
    pub fn get_program(&self) -> (r: &String)
        ensures
            r@ == self@.program,
    {
        &self.program
    }

    /// The argument list, in order.
    pub fn get_args(&self) -> (r: &Vec<String>)
        ensures
            r.deep_view() == self@.args,
    {
        &self.args
    }

    /// The environment overrides, in the order they were requested.
    pub fn get_envs(&self) -> (r: &Vec<(String, Option<String>)>)
        ensures
            r.deep_view() == self@.envs,
    {
        &self.envs
    }

    /// The explicit working directory, if one was set.
    pub fn get_current_dir(&self) -> (r: &Option<String>)
        ensures
            r.deep_view() == self@.cwd,
    {
        &self.cwd
    }
}

} // verus!
