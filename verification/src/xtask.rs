//! Argument handling of the release-build helper (`cargo xtask build`):
//! picking the `--target` triple out of the arguments and naming the
//! artifact GMod expects for it.

use vstd::prelude::*;
use vstd::string::*;

use crate::text::{has_prefix, str_equal, strip_prefix};

verus! {

/// `(target, the other arguments)` for `args`, read left to right from a
/// target of `target`. `--target <t>` and `--target=<t>` set the target (a
/// trailing `--target` with nothing after it clears it); the other
/// arguments are passed through in order.
pub open spec fn split_target_spec(args: Seq<Seq<char>>, target: Option<Seq<char>>) -> (
    Option<Seq<char>>,
    Seq<Seq<char>>,
)
    decreases args.len(),
{
    if args.len() == 0 {
        (target, Seq::empty())
    } else if args[0] == "--target"@ {
        if args.len() == 1 {
            (None, Seq::empty())
        } else {
            split_target_spec(args.skip(2), Some(args[1]))
        }
    } else if has_prefix(args[0], "--target="@) {
        split_target_spec(args.drop_first(), Some(args[0].skip("--target="@.len() as int)))
    } else {
        let r = split_target_spec(args.drop_first(), target);
        (r.0, seq![args[0]] + r.1)
    }
}

pub open spec fn strings_view(v: Seq<String>) -> Seq<Seq<char>> {
    v.map_values(|s: String| s@)
}

pub open spec fn opt_string_view(o: Option<String>) -> Option<Seq<char>> {
    match o {
        Some(s) => Some(s@),
        None => None,
    }
}

/// `(cargo's output name, the name GMod loads)` for a target triple, if
/// the triple is supported.
pub open spec fn platform_names_spec(target: Seq<char>) -> Option<(Seq<char>, Seq<char>)> {
    if target == "x86_64-pc-windows-msvc"@ {
        Some(("gmcl_buttplug.dll"@, "gmcl_buttplug_win64.dll"@))
    } else if target == "i686-pc-windows-msvc"@ {
        Some(("gmcl_buttplug.dll"@, "gmcl_buttplug_win32.dll"@))
    } else if target == "x86_64-unknown-linux-gnu"@ {
        Some(("libgmcl_buttplug.so"@, "gmcl_buttplug_linux64.dll"@))
    } else if target == "i686-unknown-linux-gnu"@ {
        Some(("libgmcl_buttplug.so"@, "gmcl_buttplug_linux.dll"@))
    } else if target == "x86_64-apple-darwin"@ {
        Some(("libgmcl_buttplug.dylib"@, "gmcl_buttplug_osx64.dll"@))
    } else {
        None
    }
}

proof fn lemma_skip_step(args: Seq<Seq<char>>, i: int, k: int)
    requires
        0 <= i,
        0 <= k,
        i + k <= args.len(),
    ensures
        args.skip(i).skip(k) == args.skip(i + k),
{
    assert(args.skip(i).skip(k) =~= args.skip(i + k));
}

/// An argument that is neither `--target` nor `--target=<t>` is passed
/// through in its place and leaves the target as it was; `--target-dir`,
/// for one, is no target.
pub proof fn law_other_arguments_pass_through(
    a: Seq<char>,
    rest: Seq<Seq<char>>,
    target: Option<Seq<char>>,
)
    requires
        a != "--target"@,
        !has_prefix(a, "--target="@),
    ensures
        split_target_spec(seq![a] + rest, target) == (
            split_target_spec(rest, target).0,
            seq![a] + split_target_spec(rest, target).1,
        ),
{
    assert((seq![a] + rest)[0] == a);
    assert((seq![a] + rest).drop_first() =~= rest);
}

/// `--target <t>` sets the target to `t` and passes neither argument on.
pub proof fn law_target_flag_takes_next(
    t: Seq<char>,
    rest: Seq<Seq<char>>,
    target: Option<Seq<char>>,
)
    ensures
        split_target_spec(seq!["--target"@, t] + rest, target) == split_target_spec(rest, Some(t)),
{
    assert((seq!["--target"@, t] + rest).skip(2) =~= rest);
}

/// `--target=<t>` sets the target to `t` and is not passed on.
pub proof fn law_target_equals_sets(t: Seq<char>, rest: Seq<Seq<char>>, target: Option<Seq<char>>)
    ensures
        split_target_spec(seq!["--target="@ + t] + rest, target) == split_target_spec(rest, Some(t)),
{
    let a = "--target="@ + t;
    reveal_strlit("--target");
    reveal_strlit("--target=");
    assert(a.subrange(0, "--target="@.len() as int) =~= "--target="@);
    assert(a != "--target"@) by {
        assert(a.len() != "--target"@.len());
    }
    assert(a.skip("--target="@.len() as int) =~= t);
    assert((seq![a] + rest)[0] == a);
    assert((seq![a] + rest).drop_first() =~= rest);
}

/// Pulls `--target <t>` / `--target=<t>` out of `args`; the rest are passed
/// through to cargo in order. The last target given wins.
pub fn split_out_target(args: Vec<String>) -> (r: (Option<String>, Vec<String>))
    ensures
        (opt_string_view(r.0), strings_view(r.1@)) == split_target_spec(strings_view(args@), None),
{
    let ghost all = strings_view(args@);
    let mut target: Option<String> = None;
    let mut rest: Vec<String> = Vec::new();
    let n = args.len();
    let mut i: usize = 0;
    assert(all.skip(0) =~= all);
    while i < n
        invariant
            n == args@.len(),
            all == strings_view(args@),
            i <= n,
            split_target_spec(all, None) == ({
                let r = split_target_spec(all.skip(i as int), opt_string_view(target));
                (r.0, strings_view(rest@) + r.1)
            }),
        decreases n - i,
    {
        let ghost tail = all.skip(i as int);
        let ghost before = strings_view(rest@);
        assert(tail[0] == args@[i as int]@);
        let arg: &String = &args[i];
        if str_equal(arg.as_str(), "--target") {
            if i + 1 < n {
                target = Some(args[i + 1].clone());
                proof {
                    assert(tail[1] == args@[i + 1]@);
                    lemma_skip_step(all, i as int, 2);
                }
                i = i + 2;
            } else {
                target = None;
                i = i + 1;
                assert(all.skip(i as int) =~= Seq::<Seq<char>>::empty());
            }
        } else {
            match strip_prefix(arg.as_str(), "--target=") {
                Some(val) => {
                    target = Some(val.to_string());
                    proof {
                        lemma_skip_step(all, i as int, 1);
                    }
                    i = i + 1;
                },
                None => {
                    rest.push(arg.clone());
                    proof {
                        lemma_skip_step(all, i as int, 1);
                        assert(strings_view(rest@) =~= before + seq![args@[i as int]@]);
                    }
                    i = i + 1;
                },
            }
        }
    }
    assert(all.skip(n as int) =~= Seq::<Seq<char>>::empty());
    assert(strings_view(rest@) + Seq::<Seq<char>>::empty() =~= strings_view(rest@));
    (target, rest)
}

/// The target triple built for by default on a host with operating system
/// `os` and architecture `arch` (as `std::env::consts` names them), if any.
pub open spec fn host_target_spec(os: Seq<char>, arch: Seq<char>) -> Option<Seq<char>> {
    if arch != "x86_64"@ {
        None
    } else if os == "windows"@ {
        Some("x86_64-pc-windows-msvc"@)
    } else if os == "linux"@ {
        Some("x86_64-unknown-linux-gnu"@)
    } else if os == "macos"@ {
        Some("x86_64-apple-darwin"@)
    } else {
        None
    }
}

/// The default target triple for a host with operating system `os` and
/// architecture `arch`; `None` where the caller must pass `--target`.
pub fn host_default_target(os: &str, arch: &str) -> (r: Option<&'static str>)
    ensures
        r matches Some(t) ==> host_target_spec(os@, arch@) == Some(t@),
        r is None ==> host_target_spec(os@, arch@) is None,
{
    if !str_equal(arch, "x86_64") {
        None
    } else if str_equal(os, "windows") {
        Some("x86_64-pc-windows-msvc")
    } else if str_equal(os, "linux") {
        Some("x86_64-unknown-linux-gnu")
    } else if str_equal(os, "macos") {
        Some("x86_64-apple-darwin")
    } else {
        None
    }
}

/// Maps a rustc target triple to `(cargo output name, final GMod name)`.
pub fn platform_names(target: &str) -> (r: Result<(&'static str, &'static str), String>)
    ensures
        r matches Ok((src, dst)) ==> platform_names_spec(target@) == Some((src@, dst@)),
        r matches Err(e) ==> platform_names_spec(target@) is None && e@ == "unsupported target: "@
            + target@,
{
    if str_equal(target, "x86_64-pc-windows-msvc") {
        Ok(("gmcl_buttplug.dll", "gmcl_buttplug_win64.dll"))
    } else if str_equal(target, "i686-pc-windows-msvc") {
        Ok(("gmcl_buttplug.dll", "gmcl_buttplug_win32.dll"))
    } else if str_equal(target, "x86_64-unknown-linux-gnu") {
        Ok(("libgmcl_buttplug.so", "gmcl_buttplug_linux64.dll"))
    } else if str_equal(target, "i686-unknown-linux-gnu") {
        Ok(("libgmcl_buttplug.so", "gmcl_buttplug_linux.dll"))
    } else if str_equal(target, "x86_64-apple-darwin") {
        Ok(("libgmcl_buttplug.dylib", "gmcl_buttplug_osx64.dll"))
    } else {
        let mut e = String::from_str("unsupported target: ");
        e.append(target);
        Err(e)
    }
}

} // verus!
