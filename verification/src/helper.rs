//! The helper's own command line and the isolation-context name.
//!
//! The helper is invoked as `helper <target-path> -- <target-arg>...`: its
//! first argument is the target's path, and everything after the first `--`
//! token is handed to the target verbatim, in order. Tokens between the path
//! and the separator are reserved and ignored. The isolation context the
//! helper creates gets a name of its own: a fixed namespace followed by a
//! freshly drawn random identifier, so concurrent invocations do not
//! collide.

use vstd::prelude::*;
use vstd::string::StrSliceExecFns;
use vstd::string::StringExecFns;

verus! {

/// The arguments the target receives: everything after the first `--` at or
/// past position `from`, or nothing when no separator stands there.
pub open spec fn args_after_separator(argv: Seq<Seq<char>>, from: int) -> Seq<Seq<char>>
    decreases argv.len() - from,
{
    if from >= argv.len() {
        Seq::<Seq<char>>::empty()
    } else if argv[from] == "--"@ {
        argv.subrange(from + 1, argv.len() as int)
    } else {
        args_after_separator(argv, from + 1)
    }
}

/// Skipping tokens that are not the separator does not change what follows
/// the separator.
proof fn lemma_args_after_separator_skip(argv: Seq<Seq<char>>, from: int, to: int)
    requires
        0 <= from <= to <= argv.len(),
        forall|j: int| from <= j < to ==> argv[j] != "--"@,
    ensures
        args_after_separator(argv, from) == args_after_separator(argv, to),
    decreases to - from,
{
    if from < to {
        lemma_args_after_separator_skip(argv, from + 1, to);
    }
}

/// Decides whether `s` is the literal separator token.
fn is_separator(s: &String) -> (r: bool)
    ensures
        r == (s@ == "--"@),
{
    proof {
        reveal_strlit("--");
    }
    let n = s.as_str().unicode_len();
    if n != 2 {
        proof {
            assert(s@ != "--"@);
        }
        return false;
    }
    let c0 = s.as_str().get_char(0);
    let c1 = s.as_str().get_char(1);
    let r = c0 == '-' && c1 == '-';
    proof {
        if r {
            assert(s@ =~= "--"@);
        }
    }
    r
}

/// Parses the helper's argument list: `argv[0]` is the helper's own name,
/// `argv[1]` the target's path, and the target's arguments are everything
/// after the first `--` further on. Anything else before the separator is
/// ignored.
pub fn parse_helper_args(argv: &Vec<String>) -> (r: (String, Vec<String>))
    requires
        argv.deep_view().len() >= 2,
    ensures
        r.0@ == argv.deep_view()[1],
        r.1.deep_view() == args_after_separator(argv.deep_view(), 2),
{
    let ghost v = argv.deep_view();
    let path = argv[1].clone();
    let n = argv.len();
    let mut i: usize = 2;
    while i < n && !is_separator(&argv[i])
        invariant
            2 <= i <= n,
            n == v.len(),
            v == argv.deep_view(),
            forall|j: int| 2 <= j < i ==> v[j] != "--"@,
        decreases n - i,
    {
        i = i + 1;
    }
    proof {
        lemma_args_after_separator_skip(v, 2, i as int);
    }
    let mut rest: Vec<String> = Vec::new();
    if i < n {
        proof {
            assert(v[i as int] == "--"@);
            assert(args_after_separator(v, i as int) == v.subrange(i as int + 1, v.len() as int));
        }
        let mut k = i + 1;
        while k < n
            invariant
                i as int + 1 <= k as int <= n,
                n == v.len(),
                v == argv.deep_view(),
                rest.deep_view() == v.subrange(i as int + 1, k as int),
            decreases n - k,
        {
            let a = argv[k].clone();
            rest.push(a);
            proof {
                assert(v.subrange(i as int + 1, k as int + 1) =~= v.subrange(
                    i as int + 1,
                    k as int,
                ).push(v[k as int]));
                assert(rest.deep_view() =~= v.subrange(i as int + 1, k as int).push(v[k as int]));
            }
            k = k + 1;
        }
        proof {
            assert(rest.deep_view() == v.subrange(i as int + 1, v.len() as int));
        }
    } else {
        proof {
            assert(args_after_separator(v, i as int) =~= Seq::<Seq<char>>::empty());
            assert(rest.deep_view() =~= Seq::<Seq<char>>::empty());
        }
    }
    (path, rest)
}

/// Law (argument round-trip, end to end): a target launched through the
/// planned helper invocation observes exactly the caller's program and
/// arguments. The runner plans the helper's argument vector as the target's
/// path, the separator, then the target's arguments; the helper parses that
/// vector back to exactly the path and the arguments; and reading the
/// helper's joined command line under the quoting grammar yields them
/// unchanged.
pub proof fn lemma_helper_argv_round_trip(
    helper: Seq<char>,
    program: Seq<char>,
    args: Seq<Seq<char>>,
)
    ensures
        ({
            let argv = seq![helper, program, "--"@] + args;
            argv.len() >= 2 && argv[1] == program && args_after_separator(argv, 2) == args
                && crate::quote::split_command_line(
                crate::quote::command_line_spec(seq![program] + args),
            ) == Some(seq![program] + args)
        }),
{
    let argv = seq![helper, program, "--"@] + args;
    assert(argv[2] == "--"@);
    assert(args_after_separator(argv, 2) == argv.subrange(3, argv.len() as int));
    assert(argv.subrange(3, argv.len() as int) =~= args);
    crate::quote::lemma_command_line_round_trip(seq![program] + args);
}

/// A character of a hyphenated identifier: a lowercase hex digit or a dash.
pub open spec fn is_uuid_char(c: char) -> bool {
    (48 <= c as u32 && c as u32 <= 57) || (97 <= c as u32 && c as u32 <= 102) || c == '-'
}

/// Relies on uuid::Uuid::new_v4 and its hyphenated rendering: a freshly
/// drawn random identifier, formatted as 36 characters — lowercase hex
/// digits with dashes at the four fixed positions. The identifier itself is
/// random, so nothing is promised about which one comes back.
#[verifier::external_body]
fn fresh_uuid_string() -> (r: String)
    ensures
        r@.len() == 36,
        forall|i: int| 0 <= i < 36 ==> is_uuid_char(#[trigger] r@[i]),
        r@[8] == '-' && r@[13] == '-' && r@[18] == '-' && r@[23] == '-',
{
    uuid::Uuid::new_v4().to_string()
}

/// Draws a fresh isolation-context name: the fixed namespace, a slash, and a
/// random 36-character identifier, so concurrent helper invocations name
/// distinct contexts with overwhelming likelihood.
pub fn fresh_context_name() -> (r: String)
    ensures
        r@.len() == "virtual-desktop-runner/"@.len() + 36,
        r@.take("virtual-desktop-runner/"@.len() as int) == "virtual-desktop-runner/"@,
        forall|i: int|
            "virtual-desktop-runner/"@.len() <= i < r@.len() ==> is_uuid_char(#[trigger] r@[i]),
{
    let mut r = String::from_str("virtual-desktop-runner/");
    let u = fresh_uuid_string();
    r.append(u.as_str());
    proof {
        let p = "virtual-desktop-runner/"@;
        assert(r@.take(p.len() as int) =~= p);
        assert forall|i: int| p.len() <= i < r@.len() implies is_uuid_char(#[trigger] r@[i]) by {
            assert(r@[i] == u@[i - p.len()]);
        }
    }
    r
}

} // verus!
