//! Aliases on the command line.

use crate::types::{alias_target, value_of};
use vstd::prelude::*;

verus! {

/// Whether `list` begins with the items of `prefix`.
pub open spec fn begins_with(list: Seq<Seq<char>>, prefix: Seq<Seq<char>>) -> bool {
    prefix.len() <= list.len() && list.subrange(0, prefix.len() as int) == prefix
}

/// The arguments written so far and the command path they have reached.
pub struct Rewriting {
    pub rewritten: Seq<Seq<char>>,
    pub path: Seq<Seq<char>>,
}

/// The rewriting after the first `n` arguments: the name of the program is
/// kept; an argument that is an alias is replaced by the part of its command
/// path that the arguments before it have not reached yet, or by the whole
/// path where they went elsewhere; any other argument is kept and extends the
/// path.
pub open spec fn rewriting(
    aliases: Seq<(Seq<char>, Seq<Seq<char>>)>,
    args: Seq<Seq<char>>,
    n: int,
) -> Rewriting
    decreases n,
{
    if n <= 1 {
        Rewriting { rewritten: seq![args[0]], path: Seq::empty() }
    } else {
        let before = rewriting(aliases, args, n - 1);
        let arg = args[n - 1];
        match value_of(aliases, arg) {
            Some(canon) => Rewriting {
                rewritten: before.rewritten + if begins_with(canon, before.path) {
                    canon.skip(before.path.len() as int)
                } else {
                    canon
                },
                path: canon,
            },
            None => Rewriting {
                rewritten: before.rewritten.push(arg),
                path: before.path.push(arg),
            },
        }
    }
}

fn starts_with_path(list: &Vec<String>, prefix: &Vec<String>) -> (yes: bool)
    ensures
        yes == begins_with(list.deep_view(), prefix.deep_view()),
{
    if prefix.len() > list.len() {
        return false;
    }
    let mut i: usize = 0;
    while i < prefix.len()
        invariant
            i <= prefix.len() <= list.len(),
            forall|j: int| 0 <= j < i ==> list.deep_view()[j] == prefix.deep_view()[j],
        decreases prefix.len() - i,
    {
        if list[i] != prefix[i] {
            assert(list.deep_view().subrange(0, prefix.len() as int)[i as int]
                != prefix.deep_view()[i as int]);
            return false;
        }
        i += 1;
    }
    assert(list.deep_view().subrange(0, prefix.len() as int) =~= prefix.deep_view());
    true
}

/// Appends copies of the items of `list` from `from` on to `out`.
fn extend_from(out: &mut Vec<String>, list: &Vec<String>, from: usize)
    requires
        from <= list.len(),
    ensures
        final(out).deep_view() == old(out).deep_view() + list.deep_view().skip(from as int),
{
    let ghost start = out.deep_view();
    let mut i: usize = from;
    while i < list.len()
        invariant
            from <= i <= list.len(),
            out.deep_view() == start + list.deep_view().subrange(from as int, i as int),
        decreases list.len() - i,
    {
        let ghost before = out.deep_view();
        out.push(list[i].clone());
        assert(out.deep_view() =~= before.push(list.deep_view()[i as int]));
        assert(out.deep_view() =~= start + list.deep_view().subrange(from as int, i + 1));
        i += 1;
    }
    assert(list.deep_view().subrange(from as int, list.len() as int) =~= list.deep_view().skip(
        from as int,
    ));
}

fn copy_of(list: &Vec<String>) -> (c: Vec<String>)
    ensures
        c.deep_view() == list.deep_view(),
{
    let mut c: Vec<String> = Vec::new();
    extend_from(&mut c, list, 0);
    assert(c.deep_view() =~= list.deep_view());
    c
}

/// Replaces the aliases among the arguments of a command line by the command
/// paths they stand for. The first argument, the name of the program, is kept
/// as it is. An alias is replaced by the part of its command path that the
/// arguments before it have not reached yet, or by the whole path where they
/// went elsewhere; every other argument is kept.
pub fn rewrite_args(aliases: &Vec<(String, Vec<String>)>, given: &Vec<String>) -> (rewritten:
    Vec<String>)
    requires
        given.len() >= 1,
    ensures
        rewritten.deep_view() == rewriting(
            aliases.deep_view(),
            given.deep_view(),
            given.len() as int,
        ).rewritten,
{
    let mut rewritten: Vec<String> = Vec::new();
    rewritten.push(given[0].clone());
    assert(rewritten.deep_view() =~= seq![given.deep_view()[0]]);
    let mut path: Vec<String> = Vec::new();
    assert(path.deep_view() =~= Seq::<Seq<char>>::empty());
    let mut n: usize = 1;
    while n < given.len()
        invariant
            1 <= n <= given.len(),
            rewritten.deep_view() == rewriting(
                aliases.deep_view(),
                given.deep_view(),
                n as int,
            ).rewritten,
            path.deep_view() == rewriting(aliases.deep_view(), given.deep_view(), n as int).path,
        decreases given.len() - n,
    {
        let arg = &given[n];
        assert(arg@ == given.deep_view()[n as int]);
        match alias_target(aliases, arg.as_str()) {
            Some(canon) => {
                if starts_with_path(canon, &path) {
                    extend_from(&mut rewritten, canon, path.len());
                } else {
                    extend_from(&mut rewritten, canon, 0);
                    assert(canon.deep_view().skip(0) =~= canon.deep_view());
                }
                path = copy_of(canon);
            },
            None => {
                let ghost before = rewritten.deep_view();
                let ghost reached = path.deep_view();
                rewritten.push(arg.clone());
                path.push(arg.clone());
                assert(rewritten.deep_view() =~= before.push(arg@));
                assert(path.deep_view() =~= reached.push(arg@));
            },
        }
        n += 1;
    }
    rewritten
}

} // verus!
