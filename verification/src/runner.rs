//! The runner: platform-strategy planning and the helper-binary cache.
//!
//! `spawn` builds a new command that wraps the caller's one — on the
//! display-virtualization platform an external multiplexer command runs the
//! target, on the isolated-desktop platform the materialized helper
//! executable does — forwarding the argument list, the environment overrides
//! and the working directory unchanged, so that isolated and direct
//! executions differ only in display visibility. Every launch uses piped
//! stdio. The planning is computed here as a plain value; creating the OS
//! process from the finished plan happens outside the library.

use crate::command::CommandSpec;
use crate::command::CommandSpecView;
use vstd::prelude::*;
use vstd::string::StringExecFns;

verus! {

/// Platform-independent state of a runner instance: it remembers, once
/// initialized, where the helper executable has been materialized on disk.
/// On the display-virtualization platform it stays empty.
pub struct TransparentRunner {
    helper_path: Option<String>,
}

impl TransparentRunner {
    /// Cached path of the materialized helper executable, set at most once
    /// over the runner's lifetime.
    pub closed spec fn cached_path(&self) -> Option<Seq<char>> {
        self.helper_path.deep_view()
    }

    /// Creates a runner with an empty helper-executable cache. Construction
    /// never fails.
    pub fn new() -> (r: Self)
        ensures
            r.cached_path() is None,
    {
        TransparentRunner { helper_path: None }
    }

    /// The helper path this runner has cached, if initialization happened.
    pub fn cached_helper_path(&self) -> (r: &Option<String>)
        ensures
            r.deep_view() == self.cached_path(),
    {
        &self.helper_path
    }

    /// Records where the helper executable was materialized. Initialization
    /// takes effect at most once per runner: once a path is cached, a later
    /// call changes nothing, so repeated spawns reuse one temporary file.
    pub fn note_helper_path(&mut self, path: String)
        ensures
            final(self).cached_path() == (if old(self).cached_path() is Some {
                old(self).cached_path()
            } else {
                Some(path@)
            }),
    {
        if self.helper_path.is_none() {
            self.helper_path = Some(path);
        }
    }

    /// Builds the command that runs `cmd` under the external
    /// display-virtualization multiplexer: the multiplexer receives the
    /// target's path and then the target's own arguments, with environment
    /// overrides and working directory forwarded unchanged.
    pub fn plan_delegate_spawn(cmd: &CommandSpec) -> (p: CommandSpec)
        ensures
            p@.program == "xvfb-run"@,
            p@.args == seq![cmd@.program] + cmd@.args,
            p@.envs == cmd@.envs,
            p@.cwd == cmd@.cwd,
    {
        let mut p = CommandSpec::new(String::from_str("xvfb-run"));
        p.arg(cmd.get_program().clone());
        proof {
            assert(p@.args =~= seq![cmd@.program]);
        }
        forward_command(&mut p, cmd);
        proof {
            assert(p@.envs =~= cmd@.envs);
        }
        p
    }

    /// Builds the command that runs `cmd` through the materialized helper:
    /// the helper receives the target's path, the literal separator, then
    /// the target's own arguments, with environment overrides and working
    /// directory forwarded unchanged.
    pub fn plan_helper_spawn(&self, cmd: &CommandSpec) -> (p: CommandSpec)
        requires
            self.cached_path() is Some,
        ensures
            p@.program == self.cached_path().unwrap(),
            p@.args == seq![cmd@.program, "--"@] + cmd@.args,
            p@.envs == cmd@.envs,
            p@.cwd == cmd@.cwd,
    {
        let helper = match &self.helper_path {
            Some(h) => h.clone(),
            None => vstd::pervasive::unreached(),
        };
        let mut p = CommandSpec::new(helper);
        p.arg(cmd.get_program().clone());
        p.arg(String::from_str("--"));
        proof {
            assert(p@.args =~= seq![cmd@.program, "--"@]);
        }
        forward_command(&mut p, cmd);
        proof {
            assert(p@.envs =~= cmd@.envs);
        }
        p
    }
}

/// Appends the target's own arguments and forwards the environment
/// overrides and the working directory onto the wrapping command.
fn forward_command(p: &mut CommandSpec, cmd: &CommandSpec)
    ensures
        final(p)@ == (CommandSpecView {
            program: old(p)@.program,
            args: old(p)@.args + cmd@.args,
            envs: old(p)@.envs + cmd@.envs,
            cwd: if cmd@.cwd is Some {
                cmd@.cwd
            } else {
                old(p)@.cwd
            },
        }),
{
    let args = cmd.get_args();
    let n = args.len();
    let mut i: usize = 0;
    while i < n
        invariant
            i <= n,
            n == args.len(),
            args.deep_view() == cmd@.args,
            p@ == (CommandSpecView { args: old(p)@.args + cmd@.args.take(i as int), ..old(p)@ }),
        decreases n - i,
    {
        let a = args[i].clone();
        p.arg(a);
        proof {
            assert(args.deep_view()[i as int] == args@[i as int]@);
            assert(old(p)@.args + cmd@.args.take(i as int + 1) =~= (old(p)@.args
                + cmd@.args.take(i as int)).push(cmd@.args[i as int]));
        }
        i = i + 1;
    }
    proof {
        assert(cmd@.args.take(n as int) =~= cmd@.args);
    }
    let envs = cmd.get_envs();
    let m = envs.len();
    let mut j: usize = 0;
    while j < m
        invariant
            j <= m,
            m == envs.len(),
            envs.deep_view() == cmd@.envs,
            p@ == (CommandSpecView {
                args: old(p)@.args + cmd@.args,
                envs: old(p)@.envs + cmd@.envs.take(j as int),
                ..old(p)@
            }),
        decreases m - j,
    {
        let name = envs[j].0.clone();
        proof {
            let ghost jj = j as int;
            assert(envs.deep_view()[jj] == (envs@[jj].0@, envs@[jj].1.deep_view()));
        }
        match &envs[j].1 {
            Some(v) => {
                let value = v.clone();
                p.env(name, value);
            },
            None => {
                p.env_remove(name);
            },
        }
        proof {
            assert(old(p)@.envs + cmd@.envs.take(j as int + 1) =~= (old(p)@.envs
                + cmd@.envs.take(j as int)).push(cmd@.envs[j as int]));
        }
        j = j + 1;
    }
    proof {
        assert(cmd@.envs.take(m as int) =~= cmd@.envs);
    }
    match cmd.get_current_dir() {
        Some(d) => {
            let dir = d.clone();
            p.current_dir(dir);
        },
        None => {},
    }
}

} // verus!
