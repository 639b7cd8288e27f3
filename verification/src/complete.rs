//! Completion logic: where the word under the cursor starts, and which
//! known command names complete a prefix — the matching names,
//! alphabetically sorted, each inserted with a trailing space.
use vstd::prelude::*;

use crate::lexer::is_shell_ws;
use crate::lexer::is_whitespace_char;
use crate::strutil::is_prefix;
use crate::strutil::lemma_str_le_total;
use crate::strutil::lemma_str_le_trans;
use crate::strutil::starts_with_str;
use crate::strutil::str_le;
use crate::strutil::str_le_exec;
use vstd::multiset::Multiset;
use vstd::seq_lib::lemma_multiset_commutative;

verus! {

/// Where the word being typed starts: the index after the last whitespace
/// character before the cursor.
pub fn word_start(line: &str, pos: usize) -> (r: usize)
    requires
        pos <= line@.len(),
    ensures
        r <= pos,
        forall|j: int| r <= j < pos ==> !is_shell_ws(#[trigger] line@[j]),
        r > 0 ==> is_shell_ws(line@[r - 1]),
{
    let mut r = pos;
    while r > 0
        invariant
            pos <= line@.len(),
            r <= pos,
            forall|j: int| r <= j < pos ==> !is_shell_ws(#[trigger] line@[j]),
        ensures
            r <= pos,
            forall|j: int| r <= j < pos ==> !is_shell_ws(#[trigger] line@[j]),
            r > 0 ==> is_shell_ws(line@[r - 1]),
        decreases r,
    {
        if is_whitespace_char(line.get_char(r - 1)) {
            break ;
        }
        r = r - 1;
    }
    r
}

/// Strings in ascending lexicographic order, duplicates allowed.
pub open spec fn strs_sorted(s: Seq<Seq<char>>) -> bool {
    forall|i: int, j: int| 0 <= i <= j < s.len() ==> #[trigger] str_le(s[i], s[j])
}

/// The entries of `cmds` that begin with `p`, in their original order.
pub open spec fn prefixed(cmds: Seq<Seq<char>>, p: Seq<char>) -> Seq<Seq<char>> {
    cmds.filter(|c: Seq<char>| is_prefix(p, c))
}

/// Insert `w` into the sorted vector `v`, keeping it sorted.
fn insert_sorted(v: &mut Vec<String>, w: String)
    requires
        strs_sorted(old(v).deep_view()),
    ensures
        strs_sorted(final(v).deep_view()),
        final(v).deep_view().to_multiset() == old(v).deep_view().to_multiset().insert(w@),
{
    let ghost pre = v.deep_view();
    let n = v.len();
    let mut i: usize = 0;
    while i < n
        invariant
            n == v@.len(),
            pre == v.deep_view(),
            i <= n,
            forall|j: int| 0 <= j < i ==> !str_le(w@, #[trigger] pre[j]),
        ensures
            n == v@.len(),
            pre == v.deep_view(),
            i <= n,
            forall|j: int| 0 <= j < i ==> !str_le(w@, #[trigger] pre[j]),
            i < n ==> str_le(w@, pre[i as int]),
        decreases n - i,
    {
        if str_le_exec(w.as_str(), (&v[i]).as_str()) {
            break ;
        }
        i = i + 1;
    }
    let ghost at = i as int;
    v.insert(i, w);
    proof {
        broadcast use vstd::seq_lib::group_seq_lib_default;

        assert(v.deep_view() =~= pre.insert(at, w@));
        let new = v.deep_view();
        assert(new =~= pre.subrange(0, at) + seq![w@] + pre.skip(at));
        // Every entry before the insertion point precedes `w`, every entry
        // from it on follows `w`.
        assert forall|j: int| 0 <= j < at implies str_le(pre[j], w@) by {
            lemma_str_le_total(w@, pre[j]);
        }
        assert forall|j: int| at <= j < pre.len() implies str_le(w@, pre[j]) by {
            if at < pre.len() {
                lemma_str_le_trans(w@, pre[at], pre[j]);
            }
        }
        assert forall|a: int, b: int| 0 <= a <= b < new.len() implies str_le(new[a], new[b]) by {
            let pa = if a < at {
                pre[a]
            } else if a == at {
                w@
            } else {
                pre[a - 1]
            };
            assert(new[a] == pa);
            let pb = if b < at {
                pre[b]
            } else if b == at {
                w@
            } else {
                pre[b - 1]
            };
            assert(new[b] == pb);
            if a < at && b < at {
            } else if a < at && b == at {
            } else if a < at && b > at {
                lemma_str_le_trans(pre[a], w@, pre[b - 1]);
            } else if a == at && b == at {
                lemma_str_le_total(w@, w@);
            } else if a == at && b > at {
            } else {
            }
        }
        // The multiset gains exactly `w`.
        broadcast use vstd::seq_lib::lemma_multiset_commutative;
        broadcast use vstd::seq_lib::group_to_multiset_ensures;

        assert(pre =~= pre.subrange(0, at) + pre.skip(at));
        assert(seq![w@].to_multiset() =~= Multiset::<Seq<char>>::empty().insert(w@)) by {
            assert(seq![w@] =~= Seq::<Seq<char>>::empty().push(w@));
            assert(Seq::<Seq<char>>::empty().push(w@).to_multiset()
                =~= Seq::<Seq<char>>::empty().to_multiset().insert(w@));
        }
        assert(new.to_multiset() =~= pre.to_multiset().insert(w@)) by {
            lemma_multiset_commutative(pre.subrange(0, at), pre.skip(at));
            lemma_multiset_commutative(pre.subrange(0, at) + seq![w@], pre.skip(at));
            lemma_multiset_commutative(pre.subrange(0, at), seq![w@]);
        }
    }
}

/// The candidates completing `prefix` among the known command names: every
/// name that begins with the prefix, listed in ascending alphabetical
/// order. The multiset equality pins the result: it holds exactly the
/// matching names, and the order says where each stands.
pub fn completion_candidates(commands: &Vec<String>, prefix: &str) -> (r: Vec<String>)
    ensures
        strs_sorted(r.deep_view()),
        r.deep_view().to_multiset() == prefixed(commands.deep_view(), prefix@).to_multiset(),
{
    let ghost pred = |c: Seq<char>| is_prefix(prefix@, c);
    let ghost cmds = commands.deep_view();
    let mut r: Vec<String> = Vec::new();
    let mut i: usize = 0;
    proof {
        broadcast use vstd::seq_lib::group_to_multiset_ensures;

        reveal(Seq::filter);
        assert(cmds.subrange(0, 0) =~= Seq::<Seq<char>>::empty());
        assert(r.deep_view() =~= Seq::<Seq<char>>::empty());
        assert(Seq::<Seq<char>>::empty().filter(pred).len() == 0);
    }
    while i < commands.len()
        invariant
            cmds == commands.deep_view(),
            i <= commands@.len(),
            cmds.len() == commands@.len(),
            strs_sorted(r.deep_view()),
            r.deep_view().to_multiset() == cmds.subrange(0, i as int).filter(
                |c: Seq<char>| is_prefix(prefix@, c),
            ).to_multiset(),
        decreases commands@.len() - i,
    {
        let ghost done = cmds.subrange(0, i as int);
        let ghost done1 = cmds.subrange(0, i + 1);
        proof {
            reveal(Seq::filter);
            assert(done1.drop_last() =~= done);
            assert(done1.last() == cmds[i as int]);
        }
        if starts_with_str((&commands[i]).as_str(), prefix) {
            insert_sorted(&mut r, (&commands[i]).clone());
            proof {
                broadcast use vstd::seq_lib::group_to_multiset_ensures;

                let p = |c: Seq<char>| is_prefix(prefix@, c);
                assert(done1.filter(p) == done.filter(p).push(cmds[i as int]));
                assert(done.filter(p).push(cmds[i as int]).to_multiset() =~= done.filter(
                    p,
                ).to_multiset().insert(cmds[i as int]));
            }
        } else {
            proof {
                let p = |c: Seq<char>| is_prefix(prefix@, c);
                assert(done1.filter(p) == done.filter(p));
            }
        }
        i = i + 1;
    }
    proof {
        assert(cmds.subrange(0, i as int) =~= cmds);
    }
    r
}

/// What completion inserts for a chosen candidate: the name followed by
/// one space.
pub fn completion_replacement(cmd: &str) -> (r: String)
    ensures
        r@ == cmd@ + " "@,
{
    let mut r = cmd.to_owned();
    r.append(" ");
    r
}

} // verus!
