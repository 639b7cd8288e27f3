//! Search-path resolution rules: how the search-path variable splits into
//! directories, how a candidate path is formed, which file counts as an
//! executable command, and which candidate wins. Reading the variable and
//! asking the file system about each candidate is the driver's work; the
//! rules themselves are verified here on plain values.
use vstd::prelude::*;

use crate::strutil::push_char;
use crate::strutil::str_eq;

verus! {

/// A file qualifies as an executable command when it is a regular file and
/// any execute bit (owner, group, or other) is set in its mode.
pub fn is_executable(is_file: bool, mode: u32) -> (r: bool)
    ensures
        r == (is_file && mode & 0o111 != 0),
{
    is_file && mode & 0o111 != 0
}

/// Scan that cuts the search-path variable at every `:`.
pub open spec fn split_colon_rec(l: Seq<char>, cur: Seq<char>, acc: Seq<Seq<char>>) -> Seq<
    Seq<char>,
>
    decreases l.len(),
{
    if l.len() == 0 {
        acc.push(cur)
    } else if l[0] == ':' {
        split_colon_rec(l.drop_first(), Seq::empty(), acc.push(cur))
    } else {
        split_colon_rec(l.drop_first(), cur.push(l[0]), acc)
    }
}

/// The directories the search-path variable names, in order.
pub open spec fn spec_split_colon(l: Seq<char>) -> Seq<Seq<char>> {
    split_colon_rec(l, Seq::empty(), Seq::empty())
}

/// Split the search-path variable at every `:` into directory names.
pub fn split_search_path(path_var: &str) -> (dirs: Vec<String>)
    ensures
        dirs.deep_view() == spec_split_colon(path_var@),
{
    let n = path_var.unicode_len();
    let mut i: usize = 0;
    let mut cur = String::new();
    let mut dirs: Vec<String> = Vec::new();
    proof {
        assert(path_var@.subrange(0, n as int) =~= path_var@);
        assert(dirs.deep_view() =~= Seq::<Seq<char>>::empty());
    }
    while i < n
        invariant
            n == path_var@.len(),
            i <= n,
            spec_split_colon(path_var@) == split_colon_rec(
                path_var@.subrange(i as int, n as int),
                cur@,
                dirs.deep_view(),
            ),
        decreases n - i,
    {
        let ghost pre_dirs = dirs.deep_view();
        let ghost pre_cur = cur@;
        let c = path_var.get_char(i);
        proof {
            let rest = path_var@.subrange(i as int, n as int);
            assert(rest[0] == path_var@[i as int]);
            assert(rest.drop_first() =~= path_var@.subrange(i + 1, n as int));
        }
        if c == ':' {
            dirs.push(cur);
            cur = String::new();
            proof {
                assert(dirs.deep_view() =~= pre_dirs.push(pre_cur));
            }
        } else {
            push_char(&mut cur, c);
        }
        i = i + 1;
    }
    proof {
        assert(path_var@.subrange(i as int, n as int).len() == 0);
    }
    let ghost pre_dirs = dirs.deep_view();
    let ghost pre_cur = cur@;
    dirs.push(cur);
    proof {
        assert(dirs.deep_view() =~= pre_dirs.push(pre_cur));
    }
    dirs
}

/// The path of `name` inside `dir`: joined with a `/` unless the directory
/// is empty or already ends in one.
pub open spec fn spec_join_path(dir: Seq<char>, name: Seq<char>) -> Seq<char> {
    if dir.len() == 0 {
        name
    } else if dir.last() == '/' {
        dir + name
    } else {
        dir + seq!['/'] + name
    }
}

pub fn join_path(dir: &str, name: &str) -> (r: String)
    ensures
        r@ == spec_join_path(dir@, name@),
{
    let n = dir.unicode_len();
    if n == 0 {
        return name.to_owned();
    }
    let mut r = dir.to_owned();
    if dir.get_char(n - 1) != '/' {
        push_char(&mut r, '/');
        proof {
            assert(dir@ + seq!['/'] =~= dir@.push('/'));
        }
    }
    r.append(name);
    r
}

/// Every candidate path for `name`, one per directory of the search path,
/// in search order.
pub open spec fn spec_candidates(path_var: Seq<char>, name: Seq<char>) -> Seq<Seq<char>> {
    spec_split_colon(path_var).map_values(|d: Seq<char>| spec_join_path(d, name))
}

pub fn resolve_candidates(path_var: &str, name: &str) -> (r: Vec<String>)
    ensures
        r.deep_view() == spec_candidates(path_var@, name@),
{
    let dirs = split_search_path(path_var);
    let mut r: Vec<String> = Vec::new();
    let mut i: usize = 0;
    while i < dirs.len()
        invariant
            dirs.deep_view() == spec_split_colon(path_var@),
            i <= dirs.len(),
            r.deep_view().len() == i,
            forall|j: int|
                0 <= j < i ==> r.deep_view()[j] == spec_join_path(
                    dirs.deep_view()[j],
                    name@,
                ),
        decreases dirs.len() - i,
    {
        let ghost pre = r.deep_view();
        let p = join_path((&dirs[i]).as_str(), name);
        r.push(p);
        proof {
            assert(r.deep_view() =~= pre.push(spec_join_path(dirs.deep_view()[i as int], name@)));
        }
        i = i + 1;
    }
    proof {
        assert(r.deep_view() =~= spec_candidates(path_var@, name@));
    }
    r
}

/// The first candidate that qualified wins; resolution fails only when
/// none did. The two vectors pair up index by index.
pub fn first_match(candidates: &Vec<String>, qualifies: &Vec<bool>) -> (r: Option<String>)
    requires
        candidates@.len() == qualifies@.len(),
    ensures
        r matches Option::Some(p) ==> exists|k: int|
            0 <= k < qualifies@.len() && #[trigger] qualifies@[k] && p@
                == candidates.deep_view()[k] && (forall|j: int| 0 <= j < k ==> !qualifies@[j]),
        r is None ==> forall|j: int| 0 <= j < qualifies@.len() ==> !qualifies@[j],
{
    let mut i: usize = 0;
    while i < qualifies.len()
        invariant
            candidates@.len() == qualifies@.len(),
            i <= qualifies@.len(),
            forall|j: int| 0 <= j < i ==> !qualifies@[j],
        decreases qualifies@.len() - i,
    {
        if qualifies[i] {
            return Option::Some(candidates[i].clone());
        }
        i = i + 1;
    }
    Option::None
}

/// Whether some entry of `v` has exactly the text `s`.
pub fn contains_str(v: &Vec<String>, s: &str) -> (r: bool)
    ensures
        r == v.deep_view().contains(s@),
{
    let mut i: usize = 0;
    while i < v.len()
        invariant
            i <= v@.len(),
            forall|j: int| 0 <= j < i ==> v.deep_view()[j] != s@,
        decreases v@.len() - i,
    {
        if str_eq((&v[i]).as_str(), s) {
            proof {
                assert(v.deep_view()[i as int] == s@);
            }
            return true;
        }
        i = i + 1;
    }
    proof {
        assert(!v.deep_view().contains(s@));
    }
    false
}

/// The names of the built-in commands, in the order the shell lists them.
pub fn builtin_names() -> (r: Vec<String>)
    ensures
        r.deep_view() == seq!["echo"@, "exit"@, "type"@, "pwd"@, "cd"@],
{
    let mut r: Vec<String> = Vec::new();
    r.push("echo".to_owned());
    r.push("exit".to_owned());
    r.push("type".to_owned());
    r.push("pwd".to_owned());
    r.push("cd".to_owned());
    proof {
        assert(r.deep_view() =~= seq!["echo"@, "exit"@, "type"@, "pwd"@, "cd"@]);
    }
    r
}

/// `cmds` with those of `extra` appended that it does not already hold, in
/// order. This seeds completion: the executables on the search path plus
/// every built-in name, listed once.
pub open spec fn add_missing(cmds: Seq<Seq<char>>, extra: Seq<Seq<char>>) -> Seq<Seq<char>>
    decreases extra.len(),
{
    if extra.len() == 0 {
        cmds
    } else {
        let next = if cmds.contains(extra[0]) {
            cmds
        } else {
            cmds.push(extra[0])
        };
        add_missing(next, extra.drop_first())
    }
}

/// Append to `all` every built-in name it does not already hold.
pub fn with_builtins(all: Vec<String>) -> (r: Vec<String>)
    ensures
        r.deep_view() == add_missing(
            all.deep_view(),
            seq!["echo"@, "exit"@, "type"@, "pwd"@, "cd"@],
        ),
{
    let ghost extra: Seq<Seq<char>> = seq!["echo"@, "exit"@, "type"@, "pwd"@, "cd"@];
    let names = builtin_names();
    let mut out = all;
    let mut i: usize = 0;
    proof {
        assert(extra.skip(0) =~= extra);
    }
    while i < names.len()
        invariant
            names.deep_view() == extra,
            names@.len() == extra.len(),
            i <= names@.len(),
            add_missing(out.deep_view(), extra.skip(i as int)) == add_missing(
                all.deep_view(),
                extra,
            ),
        decreases names@.len() - i,
    {
        proof {
            let rest = extra.skip(i as int);
            assert(rest[0] == extra[i as int]);
            assert(rest.drop_first() =~= extra.skip(i + 1));
        }
        let ghost pre = out.deep_view();
        if !contains_str(&out, (&names[i]).as_str()) {
            out.push((&names[i]).clone());
            proof {
                assert(out.deep_view() =~= pre.push(extra[i as int]));
            }
        }
        i = i + 1;
    }
    proof {
        assert(extra.skip(i as int).len() == 0);
    }
    out
}

} // verus!
