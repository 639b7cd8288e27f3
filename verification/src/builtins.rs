//! The built-in commands and their decision logic: which names are
//! built-ins, what each writes to its stdout and stderr sinks, what `exit`
//! makes of its argument, and where `cd` goes. The functions here compute
//! from plain values — the working directory, the home directory, a
//! resolved path — which the surrounding driver obtains and hands in.
use vstd::prelude::*;

use crate::strutil::push_char;
use crate::strutil::str_eq;

verus! {

/// The closed set of built-in commands.
#[derive(PartialEq, Eq, Structural, Clone, Copy, Debug)]
pub enum BuiltinId {
    Echo,
    Pwd,
    Cd,
    Type,
    Exit,
}

/// Which built-in a command name denotes, if any.
pub open spec fn spec_builtin_of(name: Seq<char>) -> Option<BuiltinId> {
    if name == "echo"@ {
        Option::Some(BuiltinId::Echo)
    } else if name == "pwd"@ {
        Option::Some(BuiltinId::Pwd)
    } else if name == "cd"@ {
        Option::Some(BuiltinId::Cd)
    } else if name == "type"@ {
        Option::Some(BuiltinId::Type)
    } else if name == "exit"@ {
        Option::Some(BuiltinId::Exit)
    } else {
        Option::None
    }
}

/// Executable built-in lookup matching `spec_builtin_of`.
pub fn builtin_of(name: &str) -> (r: Option<BuiltinId>)
    ensures
        r == spec_builtin_of(name@),
{
    if str_eq(name, "echo") {
        Option::Some(BuiltinId::Echo)
    } else if str_eq(name, "pwd") {
        Option::Some(BuiltinId::Pwd)
    } else if str_eq(name, "cd") {
        Option::Some(BuiltinId::Cd)
    } else if str_eq(name, "type") {
        Option::Some(BuiltinId::Type)
    } else if str_eq(name, "exit") {
        Option::Some(BuiltinId::Exit)
    } else {
        Option::None
    }
}

/// What a built-in writes: one line for the stdout sink and one for the
/// stderr sink, either possibly empty. The driver appends the newline when
/// it writes a non-empty line to its sink.
pub struct BuiltinOutput {
    pub out: String,
    pub err: String,
}

pub open spec fn opt_str_view(o: Option<String>) -> Option<Seq<char>> {
    match o {
        Option::Some(s) => Option::Some(s@),
        Option::None => Option::None,
    }
}

// ---------------------------------------------------------------------
// echo
// ---------------------------------------------------------------------
/// `echo` writes its arguments beyond the command name, joined by single
/// spaces.
pub fn echo_output(argv: &Vec<String>) -> (out: String)
    requires
        argv@.len() >= 1,
    ensures
        out@ == crate::strutil::join_sp(argv.deep_view().drop_first()),
{
    let ghost dv = argv.deep_view();
    let mut out = String::new();
    let mut i: usize = 1;
    proof {
        assert(dv.subrange(1, 1) =~= Seq::<Seq<char>>::empty());
    }
    while i < argv.len()
        invariant
            dv == argv.deep_view(),
            dv.len() == argv@.len(),
            1 <= i <= argv.len() || (argv.len() < 1 && i == 1),
            out@ == crate::strutil::join_sp(dv.subrange(1, i as int)),
        decreases argv.len() - i,
    {
        let ghost pre = out@;
        if i > 1 {
            push_char(&mut out, ' ');
        }
        out.append((&argv[i]).as_str());
        proof {
            let done = dv.subrange(1, i as int);
            crate::strutil::lemma_join_sp_push(done, dv[i as int]);
            assert(dv.subrange(1, i + 1) =~= done.push(dv[i as int]));
            if i > 1 {
                assert(out@ =~= crate::strutil::join_sp(done) + seq![' '] + dv[i as int]);
            } else {
                assert(out@ =~= dv[i as int]);
            }
        }
        i = i + 1;
    }
    proof {
        assert(dv.subrange(1, i as int) =~= dv.drop_first() || argv@.len() < 1);
    }
    out
}

// ---------------------------------------------------------------------
// pwd
// ---------------------------------------------------------------------
/// What `pwd` writes, given the working directory the system reported, or
/// nothing when that call failed.
pub open spec fn spec_pwd_output(cwd: Option<Seq<char>>) -> (Seq<char>, Seq<char>) {
    match cwd {
        Option::Some(c) => (c, Seq::empty()),
        Option::None => (Seq::empty(), "Failed to get current directory"@),
    }
}

pub fn pwd_output(cwd: Option<String>) -> (r: BuiltinOutput)
    ensures
        (r.out@, r.err@) == spec_pwd_output(opt_str_view(cwd)),
{
    match cwd {
        Option::Some(c) => BuiltinOutput { out: c, err: String::new() },
        Option::None => BuiltinOutput {
            out: String::new(),
            err: "Failed to get current directory".to_owned(),
        },
    }
}

/// Law: `pwd` is idempotent — with the same working directory and no
/// intervening `cd`, two runs produce identical output.
pub proof fn lemma_pwd_idempotent(c1: Option<Seq<char>>, c2: Option<Seq<char>>)
    requires
        c1 == c2,
    ensures
        spec_pwd_output(c1) == spec_pwd_output(c2),
{
}

// ---------------------------------------------------------------------
// type
// ---------------------------------------------------------------------
/// What `type` writes for a name: built-ins win; otherwise a resolved path
/// is reported; otherwise the name is not found, on the stderr sink.
pub fn type_output(arg: &String, resolved: Option<String>) -> (r: BuiltinOutput)
    ensures
        spec_builtin_of(arg@) is Some ==> r.out@ == arg@ + " is a shell builtin"@ && r.err@
            == Seq::<char>::empty(),
        spec_builtin_of(arg@) is None && resolved is Some ==> r.out@ == arg@ + " is "@
            + resolved->Some_0@ && r.err@ == Seq::<char>::empty(),
        spec_builtin_of(arg@) is None && resolved is None ==> r.out@ == Seq::<char>::empty()
            && r.err@ == arg@ + " not found"@,
{
    if builtin_of(arg.as_str()).is_some() {
        let mut out = arg.clone();
        out.append(" is a shell builtin");
        BuiltinOutput { out, err: String::new() }
    } else {
        match resolved {
            Option::Some(p) => {
                let mut out = arg.clone();
                out.append(" is ");
                out.append(p.as_str());
                BuiltinOutput { out, err: String::new() }
            },
            Option::None => {
                let mut err = arg.clone();
                err.append(" not found");
                BuiltinOutput { out: String::new(), err }
            },
        }
    }
}

// ---------------------------------------------------------------------
// exit
// ---------------------------------------------------------------------
pub open spec fn is_digit(c: char) -> bool {
    '0' as u32 <= c as u32 && c as u32 <= '9' as u32
}

pub open spec fn digit_val(c: char) -> int {
    c as u32 - '0' as u32
}

pub open spec fn all_digits(s: Seq<char>) -> bool {
    forall|i: int| 0 <= i < s.len() ==> is_digit(#[trigger] s[i])
}

/// The value of a digit string read left to right.
pub open spec fn digits_val(s: Seq<char>) -> int
    decreases s.len(),
{
    if s.len() == 0 {
        0
    } else {
        digits_val(s.drop_last()) * 10 + digit_val(s.last())
    }
}

/// What parsing a signed 32-bit integer from a string yields: an optional
/// sign, then one or more decimal digits, and the value must fit.
pub open spec fn spec_parse_i32(s: Seq<char>) -> Option<i32> {
    let neg = s.len() > 0 && s[0] == '-';
    let ds = if s.len() > 0 && (s[0] == '-' || s[0] == '+') {
        s.drop_first()
    } else {
        s
    };
    if ds.len() == 0 || !all_digits(ds) {
        Option::None
    } else {
        let v = if neg {
            -digits_val(ds)
        } else {
            digits_val(ds)
        };
        if i32::MIN <= v <= i32::MAX {
            Option::Some(v as i32)
        } else {
            Option::None
        }
    }
}

proof fn lemma_digits_val_nonneg(s: Seq<char>)
    requires
        all_digits(s),
    ensures
        digits_val(s) >= 0,
    decreases s.len(),
{
    if s.len() > 0 {
        assert(all_digits(s.drop_last())) by {
            assert(forall|i: int| 0 <= i < s.len() - 1 ==> s.drop_last()[i] == s[i]);
        }
        lemma_digits_val_nonneg(s.drop_last());
    }
}

proof fn lemma_digits_val_prefix(s: Seq<char>, j: int)
    requires
        all_digits(s),
        0 <= j <= s.len(),
    ensures
        digits_val(s) >= digits_val(s.subrange(0, j)),
    decreases s.len(),
{
    if j == s.len() {
        assert(s.subrange(0, j) =~= s);
    } else {
        assert(all_digits(s.drop_last())) by {
            assert(forall|i: int| 0 <= i < s.len() - 1 ==> s.drop_last()[i] == s[i]);
        }
        assert(s.drop_last().subrange(0, j) =~= s.subrange(0, j));
        lemma_digits_val_prefix(s.drop_last(), j);
        lemma_digits_val_nonneg(s.drop_last());
    }
}

/// Parse a signed 32-bit integer exactly as `spec_parse_i32` says.
pub fn parse_i32(s: &str) -> (r: Option<i32>)
    ensures
        r == spec_parse_i32(s@),
{
    let n = s.unicode_len();
    let mut start: usize = 0;
    let mut neg = false;
    if n > 0 {
        let c0 = s.get_char(0);
        if c0 == '-' {
            neg = true;
            start = 1;
        } else if c0 == '+' {
            start = 1;
        }
    }
    let ghost ds = if s@.len() > 0 && (s@[0] == '-' || s@[0] == '+') {
        s@.drop_first()
    } else {
        s@
    };
    proof {
        assert(ds =~= s@.subrange(start as int, n as int));
    }
    if start >= n {
        return Option::None;
    }
    let limit: i64 = if neg {
        2147483648
    } else {
        2147483647
    };
    let mut acc: i64 = 0;
    let mut j: usize = start;
    proof {
        assert(s@.subrange(start as int, start as int).len() == 0);
    }
    while j < n
        invariant
            n == s@.len(),
            start <= j <= n,
            start < n,
            ds == s@.subrange(start as int, n as int),
            ds == (if s@.len() > 0 && (s@[0] == '-' || s@[0] == '+') {
                s@.drop_first()
            } else {
                s@
            }),
            neg == (s@.len() > 0 && s@[0] == '-'),
            limit == (if neg {
                2147483648i64
            } else {
                2147483647i64
            }),
            all_digits(s@.subrange(start as int, j as int)),
            acc == digits_val(s@.subrange(start as int, j as int)),
            0 <= acc <= limit,
        decreases n - j,
    {
        let c = s.get_char(j);
        let u = c as u32;
        if !(48 <= u && u <= 57) {
            proof {
                assert(ds[j - start] == s@[j as int]);
                assert(!is_digit(ds[j - start]));
            }
            return Option::None;
        }
        let d = (u - 48) as i64;
        let next = acc * 10 + d;
        let ghost done = s@.subrange(start as int, j as int);
        proof {
            let done1 = s@.subrange(start as int, j + 1);
            assert(done1.drop_last() =~= done);
            assert(done1.last() == s@[j as int]);
            assert(forall|i: int| 0 <= i < done1.len() - 1 ==> done1[i] == done[i]);
            assert(digits_val(done1) == next);
        }
        if next > limit {
            proof {
                let done1 = s@.subrange(start as int, j + 1);
                if all_digits(ds) {
                    assert(ds.subrange(0, j + 1 - start) =~= done1);
                    lemma_digits_val_prefix(ds, j + 1 - start);
                    assert(digits_val(ds) > limit);
                }
            }
            return Option::None;
        }
        acc = next;
        j = j + 1;
    }
    proof {
        assert(s@.subrange(start as int, j as int) =~= ds);
    }
    if neg {
        Option::Some((-acc) as i32)
    } else {
        Option::Some(acc as i32)
    }
}

/// The process status `exit` asks for: its argument parsed as a signed
/// integer, 1 when the argument does not parse, 0 when there is none.
pub fn exit_status(arg: Option<&String>) -> (code: i32)
    ensures
        arg matches Option::Some(a) ==> code == (match spec_parse_i32(a@) {
            Option::Some(v) => v,
            Option::None => 1i32,
        }),
        arg is None ==> code == 0,
{
    match arg {
        Option::Some(a) => match parse_i32(a.as_str()) {
            Option::Some(v) => v,
            Option::None => 1,
        },
        Option::None => 0,
    }
}

// ---------------------------------------------------------------------
// cd
// ---------------------------------------------------------------------
/// Where `cd` goes: a bare `~` means the home directory — unavailable when
/// that variable is unset — and anything else is taken as a path.
pub open spec fn spec_cd_target(arg: Seq<char>, home: Option<Seq<char>>) -> Option<Seq<char>> {
    if arg == "~"@ {
        home
    } else {
        Option::Some(arg)
    }
}

pub fn cd_target(arg: &String, home: Option<String>) -> (r: Option<String>)
    ensures
        opt_str_view(r) == spec_cd_target(arg@, opt_str_view(home)),
{
    if str_eq(arg.as_str(), "~") {
        home
    } else {
        Option::Some(arg.clone())
    }
}

/// The diagnostic `cd` writes when the target cannot be entered.
pub fn cd_error_message(path: &str) -> (r: String)
    ensures
        r@ == "cd: "@ + path@ + ": No such file or directory"@,
{
    let mut r = "cd: ".to_owned();
    r.append(path);
    r.append(": No such file or directory");
    r
}

/// The diagnostic `cd ~` writes when the home variable is unset.
pub fn cd_home_unset_message() -> (r: String)
    ensures
        r@ == "cd: HOME not set"@,
{
    "cd: HOME not set".to_owned()
}

// ---------------------------------------------------------------------
// Executor diagnostics
// ---------------------------------------------------------------------
/// The diagnostic for a command name that resolves to nothing.
pub fn command_not_found_message(name: &str) -> (r: String)
    ensures
        r@ == name@ + ": command not found"@,
{
    let mut r = name.to_owned();
    r.append(": command not found");
    r
}

/// The diagnostic for a built-in standing at a non-final position of a
/// pipeline, which this shell refuses to run.
pub fn builtin_in_pipe_message(name: &str) -> (r: String)
    ensures
        r@ == "Built-in command '"@ + name@ + "' in a pipe: Not supported."@,
{
    let mut r = "Built-in command '".to_owned();
    r.append(name);
    r.append("' in a pipe: Not supported.");
    r
}

} // verus!
