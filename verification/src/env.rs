//! Environment-override semantics.
//!
//! A spawned child inherits the caller's environment, changed by an ordered
//! list of overrides: each override either sets a variable to a value or
//! removes it. A later override of the same name wins over an earlier one.
//! [`apply_env_overrides`] computes the environment the child observes, and
//! its contract pins the result down for every variable name.

use vstd::prelude::*;

verus! {

/// An environment as a list of `name = value` bindings with pairwise distinct
/// names.
pub open spec fn env_keys_unique(env: Seq<(Seq<char>, Seq<char>)>) -> bool {
    forall|i: int, j: int| 0 <= i < j < env.len() ==> env[i].0 != env[j].0
}

/// The value bound to `name` in `env`, or `None` if no binding names it.
/// The first binding wins; with unique keys there is at most one.
pub open spec fn env_lookup(env: Seq<(Seq<char>, Seq<char>)>, name: Seq<char>) -> Option<Seq<char>>
    decreases env.len(),
{
    if env.len() == 0 {
        None
    } else if env[0].0 == name {
        Some(env[0].1)
    } else {
        env_lookup(env.drop_first(), name)
    }
}

/// `env` with every binding of `name` removed, other bindings kept in order.
pub open spec fn env_without(env: Seq<(Seq<char>, Seq<char>)>, name: Seq<char>) -> Seq<
    (Seq<char>, Seq<char>),
>
    decreases env.len(),
{
    if env.len() == 0 {
        env
    } else if env.last().0 == name {
        env_without(env.drop_last(), name)
    } else {
        env_without(env.drop_last(), name).push(env.last())
    }
}

/// The last override of `name`, if any: `Some(Some(v))` for a set, `Some(None)`
/// for a removal, `None` when no override names it.
pub open spec fn last_override(
    ovs: Seq<(Seq<char>, Option<Seq<char>>)>,
    name: Seq<char>,
) -> Option<Option<Seq<char>>>
    decreases ovs.len(),
{
    if ovs.len() == 0 {
        None
    } else if ovs.last().0 == name {
        Some(ovs.last().1)
    } else {
        last_override(ovs.drop_last(), name)
    }
}

/// What the child observes for `name`: the last override wins; a variable no
/// override names keeps its inherited binding.
pub open spec fn effective_env(
    base: Seq<(Seq<char>, Seq<char>)>,
    ovs: Seq<(Seq<char>, Option<Seq<char>>)>,
    name: Seq<char>,
) -> Option<Seq<char>> {
    match last_override(ovs, name) {
        Some(v) => v,
        None => env_lookup(base, name),
    }
}

/// Looking a name up after a push sees the earlier bindings first; only when
/// none of them binds the name does the pushed binding count.
proof fn lemma_env_lookup_push(env: Seq<(Seq<char>, Seq<char>)>, p: (Seq<char>, Seq<char>), name: Seq<char>)
    ensures
        env_lookup(env.push(p), name) == (if env_lookup(env, name) is Some {
            env_lookup(env, name)
        } else if p.0 == name {
            Some(p.1)
        } else {
            None::<Seq<char>>
        }),
    decreases env.len(),
{
    if env.len() == 0 {
        assert(env.push(p)[0] == p);
        assert(env.push(p).drop_first() =~= Seq::<(Seq<char>, Seq<char>)>::empty());
    } else {
        assert(env.push(p)[0] == env[0]);
        assert(env.push(p).drop_first() =~= env.drop_first().push(p));
        lemma_env_lookup_push(env.drop_first(), p, name);
    }
}

/// Removal behaves on lookups exactly as a map removal: the removed name is
/// gone, every other name keeps its binding.
proof fn lemma_env_without_lookup(
    env: Seq<(Seq<char>, Seq<char>)>,
    name: Seq<char>,
    n: Seq<char>,
)
    ensures
        env_lookup(env_without(env, name), n) == (if n == name {
            None::<Seq<char>>
        } else {
            env_lookup(env, n)
        }),
    decreases env.len(),
{
    if env.len() == 0 {
    } else {
        let head = env.drop_last();
        let p = env.last();
        lemma_env_without_lookup(head, name, n);
        assert(head.push(p) =~= env);
        lemma_env_lookup_push(head, p, n);
        if p.0 == name {
        } else {
            lemma_env_lookup_push(env_without(head, name), p, n);
        }
    }
}

/// Every name bound after a removal was bound before it.
proof fn lemma_env_without_keys(env: Seq<(Seq<char>, Seq<char>)>, name: Seq<char>, k: int)
    requires
        0 <= k < env_without(env, name).len(),
    ensures
        exists|i: int|
            0 <= i < env.len() && env[i] == env_without(env, name)[k]
                && env[i].0 == env_without(env, name)[k].0,
    decreases env.len(),
{
    if env.len() == 0 {
    } else {
        let head = env.drop_last();
        let w = env_without(head, name);
        if env.last().0 == name {
            lemma_env_without_keys(head, name, k);
            let i = choose|i: int| 0 <= i < head.len() && head[i] == env_without(head, name)[k];
            assert(env[i] == env_without(env, name)[k]);
        } else {
            if k < w.len() {
                lemma_env_without_keys(head, name, k);
                let i = choose|i: int| 0 <= i < head.len() && head[i] == env_without(head, name)[k];
                assert(env[i] == env_without(env, name)[k]);
            } else {
                assert(env_without(env, name)[k] == env.last());
                assert(env[env.len() - 1] == env_without(env, name)[k]);
            }
        }
    }
}

/// Removal keeps the names pairwise distinct.
proof fn lemma_env_without_unique(env: Seq<(Seq<char>, Seq<char>)>, name: Seq<char>)
    requires
        env_keys_unique(env),
    ensures
        env_keys_unique(env_without(env, name)),
    decreases env.len(),
{
    if env.len() == 0 {
    } else {
        let head = env.drop_last();
        let p = env.last();
        assert(env_keys_unique(head));
        lemma_env_without_unique(head, name);
        if p.0 == name {
        } else {
            let w = env_without(head, name);
            assert forall|i: int, j: int|
                0 <= i < j < w.push(p).len() implies w.push(p)[i].0 != w.push(p)[j].0 by {
                if j < w.len() {
                } else {
                    lemma_env_without_keys(head, name, i);
                    let b = choose|b: int| 0 <= b < head.len() && head[b] == w[i];
                    assert(env[b] == w[i]);
                    assert(env[b].0 != env[env.len() - 1].0);
                }
            }
        }
    }
}

/// A name bound in `env` is bound at some index, and conversely.
proof fn lemma_env_lookup_index(env: Seq<(Seq<char>, Seq<char>)>, name: Seq<char>)
    ensures
        env_lookup(env, name) is Some <==> exists|i: int| 0 <= i < env.len() && env[i].0 == name,
    decreases env.len(),
{
    if env.len() == 0 {
    } else if env[0].0 == name {
    } else {
        lemma_env_lookup_index(env.drop_first(), name);
        if env_lookup(env, name) is Some {
            let i = choose|i: int|
                0 <= i < env.drop_first().len() && env.drop_first()[i].0 == name;
            assert(env[i + 1].0 == name);
        }
        if exists|i: int| 0 <= i < env.len() && env[i].0 == name {
            let i = choose|i: int| 0 <= i < env.len() && env[i].0 == name;
            assert(env.drop_first()[i - 1].0 == name);
        }
    }
}

/// Appending an override makes it the last word on its own name and changes
/// nothing for any other name.
proof fn lemma_last_override_push(
    ovs: Seq<(Seq<char>, Option<Seq<char>>)>,
    p: (Seq<char>, Option<Seq<char>>),
    name: Seq<char>,
)
    ensures
        last_override(ovs.push(p), name) == (if p.0 == name {
            Some(p.1)
        } else {
            last_override(ovs, name)
        }),
{
    assert(ovs.push(p).last() == p);
    assert(ovs.push(p).drop_last() =~= ovs);
}

/// Removes every binding of `name` from `env`, keeping the others in order.
fn remove_env_entry(env: &mut Vec<(String, String)>, name: &String)
    ensures
        final(env).deep_view() == env_without(old(env).deep_view(), name@),
{
    let mut out: Vec<(String, String)> = Vec::new();
    let n = env.len();
    let mut i: usize = 0;
    proof {
        assert(out.deep_view() =~= env_without(env.deep_view().take(0), name@));
    }
    while i < n
        invariant
            i <= n,
            n == env.len(),
            out.deep_view() == env_without(env.deep_view().take(i as int), name@),
        decreases n - i,
    {
        let ghost prefix = env.deep_view().take(i as int);
        let ghost next = env.deep_view().take(i as int + 1);
        proof {
            assert(next.drop_last() =~= prefix);
            assert(next.last() == env.deep_view()[i as int]);
        }
        if !string_eq(&env[i].0, name) {
            let entry = (env[i].0.clone(), env[i].1.clone());
            proof {
                assert(entry.deep_view() == env.deep_view()[i as int]);
            }
            out.push(entry);
            proof {
                assert(out.deep_view() =~= env_without(prefix, name@).push(
                    env.deep_view()[i as int],
                ));
            }
        } else {
            proof {
                assert(env.deep_view()[i as int].0 == name@);
            }
        }
        i = i + 1;
    }
    proof {
        assert(env.deep_view().take(n as int) =~= env.deep_view());
    }
    *env = out;
}

/// Compares two strings for character-for-character equality.
fn string_eq(a: &String, b: &String) -> (r: bool)
    ensures
        r == (a@ == b@),
{
    a.eq(b)
}

/// Computes the environment a child observes: the inherited `base` bindings,
/// changed by `overrides` in order — a set override binds the name to its
/// value, a removal unbinds it, and for a repeated name the last override
/// wins. The result binds each name to exactly its effective value and keeps
/// names pairwise distinct.
pub fn apply_env_overrides(
    base: &Vec<(String, String)>,
    overrides: &Vec<(String, Option<String>)>,
) -> (r: Vec<(String, String)>)
    requires
        env_keys_unique(base.deep_view()),
    ensures
        env_keys_unique(r.deep_view()),
        forall|n: Seq<char>| #[trigger]
            env_lookup(r.deep_view(), n) == effective_env(
                base.deep_view(),
                overrides.deep_view(),
                n,
            ),
{
    let mut out: Vec<(String, String)> = Vec::new();
    let nb = base.len();
    let mut i: usize = 0;
    while i < nb
        invariant
            i <= nb,
            nb == base.len(),
            out.deep_view() == base.deep_view().take(i as int),
        decreases nb - i,
    {
        let entry = (base[i].0.clone(), base[i].1.clone());
        proof {
            assert(entry.deep_view() == base.deep_view()[i as int]);
            assert(base.deep_view().take(i as int + 1) =~= base.deep_view().take(i as int).push(
                base.deep_view()[i as int],
            ));
        }
        out.push(entry);
        i = i + 1;
    }
    proof {
        assert(base.deep_view().take(nb as int) =~= base.deep_view());
        assert(out.deep_view() == base.deep_view());
        assert forall|n: Seq<char>| #[trigger]
            env_lookup(out.deep_view(), n) == effective_env(
                base.deep_view(),
                overrides.deep_view().take(0),
                n,
            ) by {}
    }
    let no = overrides.len();
    let mut j: usize = 0;
    while j < no
        invariant
            j <= no,
            no == overrides.len(),
            env_keys_unique(out.deep_view()),
            forall|n: Seq<char>| #[trigger]
                env_lookup(out.deep_view(), n) == effective_env(
                    base.deep_view(),
                    overrides.deep_view().take(j as int),
                    n,
                ),
        decreases no - j,
    {
        let ghost before = out.deep_view();
        let ghost prefix = overrides.deep_view().take(j as int);
        let ghost ov = overrides.deep_view()[j as int];
        let name = overrides[j].0.clone();
        proof {
            assert(name@ == ov.0);
        }
        remove_env_entry(&mut out, &name);
        proof {
            lemma_env_without_unique(before, name@);
            assert forall|n: Seq<char>| true implies #[trigger] env_lookup(out.deep_view(), n)
                == (if n == name@ {
                None::<Seq<char>>
            } else {
                env_lookup(before, n)
            }) by {
                lemma_env_without_lookup(before, name@, n);
            }
        }
        let ghost removed = out.deep_view();
        match &overrides[j].1 {
            Some(v) => {
                let entry = (name, v.clone());
                proof {
                    assert(entry.deep_view() == (ov.0, v@));
                    assert(ov.1 == Some(v@));
                }
                out.push(entry);
                proof {
                    assert(out.deep_view() =~= removed.push((ov.0, v@)));
                    lemma_env_lookup_index(removed, ov.0);
                    assert forall|a: int, b: int|
                        0 <= a < b < out.deep_view().len() implies out.deep_view()[a].0
                        != out.deep_view()[b].0 by {
                        if b == removed.len() {
                            assert(env_lookup(removed, ov.0) is None);
                        }
                    }
                    assert forall|n: Seq<char>| true implies #[trigger] env_lookup(
                        out.deep_view(),
                        n,
                    ) == (if n == ov.0 {
                        Some(v@)
                    } else {
                        env_lookup(removed, n)
                    }) by {
                        lemma_env_lookup_push(removed, (ov.0, v@), n);
                        if n == ov.0 {
                            assert(env_lookup(removed, n) is None);
                        }
                    }
                }
            },
            None => {
                proof {
                    assert(ov.1 == None::<Seq<char>>);
                }
            },
        }
        proof {
            let next = overrides.deep_view().take(j as int + 1);
            assert(next.drop_last() =~= prefix);
            assert(next.last() == ov);
            assert forall|n: Seq<char>| true implies #[trigger] env_lookup(out.deep_view(), n)
                == effective_env(base.deep_view(), next, n) by {
                lemma_last_override_push(prefix, ov, n);
                assert(prefix.push(ov) =~= next);
            }
        }
        j = j + 1;
    }
    proof {
        assert(overrides.deep_view().take(no as int) =~= overrides.deep_view());
    }
    out
}

/// Law: for every variable name, a final set override is observed with
/// exactly its value, a final removal leaves the name unobserved, and a name
/// no override mentions keeps its inherited binding.
pub proof fn lemma_env_override_correctness(
    base: Seq<(Seq<char>, Seq<char>)>,
    ovs: Seq<(Seq<char>, Option<Seq<char>>)>,
    name: Seq<char>,
)
    ensures
        forall|v: Seq<char>|
            last_override(ovs, name) == Some(Some(v)) ==> effective_env(base, ovs, name)
                == Some(v),
        last_override(ovs, name) == Some(None::<Seq<char>>) ==> effective_env(base, ovs, name)
            is None,
        last_override(ovs, name) is None ==> effective_env(base, ovs, name) == env_lookup(
            base,
            name,
        ),
{
}

} // verus!
