//! The pipeline parser: splits a raw line on `|` outside quoted regions,
//! lexes each segment, and rewrites the word sequence of each segment into
//! a command stage — an argument vector plus at most one stdout and one
//! stderr redirection. Redirection operators are recognized only as
//! standalone unquoted words; each consumes the following word as its
//! target path, and a later operator for the same descriptor overwrites an
//! earlier one. No other redirection forms are recognized: `<`, and
//! descriptors other than 1 and 2, pass through as ordinary words, and an
//! operator glued to other text (`echo>x`) is an ordinary word too.
use vstd::prelude::*;

use crate::lexer::lex;
use crate::lexer::mode_step;
use crate::lexer::spec_lex;
use crate::lexer::words_view;
use crate::lexer::LexMode;
use crate::lexer::Word;
use crate::lexer::WordV;
use crate::strutil::push_char;

verus! {

/// Whether a redirection truncates the target file or appends to it.
#[derive(PartialEq, Eq, Structural, Clone, Copy, Debug)]
pub enum RedirMode {
    Truncate,
    Append,
}

/// The mathematical model of a redirection.
#[verifier::ext_equal]
pub struct RedirV {
    pub fd: u8,
    pub path: Seq<char>,
    pub mode: RedirMode,
}

/// A redirection: the target descriptor (1 for stdout, 2 for stderr), the
/// file path, and the open mode.
#[derive(Debug)]
pub struct Redirection {
    pub fd: u8,
    pub path: String,
    pub mode: RedirMode,
}

impl View for Redirection {
    type V = RedirV;

    open spec fn view(&self) -> RedirV {
        RedirV { fd: self.fd, path: self.path@, mode: self.mode }
    }
}

/// Where a stage stands in its pipeline, derived from its index.
#[derive(PartialEq, Eq, Structural, Clone, Copy, Debug)]
pub enum Position {
    First,
    Middle,
    Last,
    Only,
}

/// The mathematical model of a stage.
#[verifier::ext_equal]
pub struct StageV {
    pub argv: Seq<Seq<char>>,
    pub stdout_redir: Option<RedirV>,
    pub stderr_redir: Option<RedirV>,
    pub position: Position,
}

/// One command of a pipeline: its argument vector (never empty; the first
/// entry is the command name), its redirections, and its position.
#[derive(Debug)]
pub struct Stage {
    pub argv: Vec<String>,
    pub stdout_redir: Option<Redirection>,
    pub stderr_redir: Option<Redirection>,
    pub position: Position,
}

pub open spec fn opt_redir_view(o: Option<Redirection>) -> Option<RedirV> {
    match o {
        Option::Some(r) => Option::Some(r@),
        Option::None => Option::None,
    }
}

impl View for Stage {
    type V = StageV;

    open spec fn view(&self) -> StageV {
        StageV {
            argv: self.argv.deep_view(),
            stdout_redir: opt_redir_view(self.stdout_redir),
            stderr_redir: opt_redir_view(self.stderr_redir),
            position: self.position,
        }
    }
}

/// The mathematical model of a pipeline.
#[verifier::ext_equal]
pub struct PipelineV {
    pub stages: Seq<StageV>,
}

/// An ordered, non-empty sequence of stages.
#[derive(Debug)]
pub struct Pipeline {
    pub stages: Vec<Stage>,
}

impl View for Pipeline {
    type V = PipelineV;

    open spec fn view(&self) -> PipelineV {
        PipelineV { stages: self.stages@.map_values(|s: Stage| s@) }
    }
}

/// What can go wrong while parsing a line into a pipeline.
#[derive(PartialEq, Eq, Structural, Clone, Copy, Debug)]
pub enum ParseError {
    /// A redirection operator stood last in its segment, with no target.
    MissingRedirectTarget,
    /// A segment had no words left after operator removal.
    EmptyStage,
}

// ---------------------------------------------------------------------
// Splitting on `|` outside quotes
// ---------------------------------------------------------------------
/// Scan of the raw line that cuts at every `|` standing outside quoted
/// regions, tracking the same quoting modes as the lexer.
pub open spec fn split_pipes_rec(
    m: LexMode,
    l: Seq<char>,
    cur: Seq<char>,
    acc: Seq<Seq<char>>,
) -> Seq<Seq<char>>
    decreases l.len(),
{
    if l.len() == 0 {
        acc.push(cur)
    } else if m == LexMode::Unquoted && l[0] == '|' {
        split_pipes_rec(m, l.drop_first(), Seq::empty(), acc.push(cur))
    } else {
        split_pipes_rec(mode_step(m, l[0]), l.drop_first(), cur.push(l[0]), acc)
    }
}

/// The segments of a raw line: the text between unquoted `|` bytes.
pub open spec fn spec_split_pipes(l: Seq<char>) -> Seq<Seq<char>> {
    split_pipes_rec(LexMode::Unquoted, l, Seq::empty(), Seq::empty())
}

pub proof fn lemma_split_pipes_rec_len(m: LexMode, l: Seq<char>, cur: Seq<char>, acc: Seq<Seq<char>>)
    ensures
        split_pipes_rec(m, l, cur, acc).len() > acc.len(),
    decreases l.len(),
{
    if l.len() == 0 {
    } else if m == LexMode::Unquoted && l[0] == '|' {
        lemma_split_pipes_rec_len(m, l.drop_first(), Seq::empty(), acc.push(cur));
    } else {
        lemma_split_pipes_rec_len(mode_step(m, l[0]), l.drop_first(), cur.push(l[0]), acc);
    }
}

/// Executable mode transition matching `mode_step`.
pub fn mode_step_exec(m: LexMode, c: char) -> (r: LexMode)
    ensures
        r == mode_step(m, c),
{
    match m {
        LexMode::Unquoted => if c == '\\' {
            LexMode::EscapedUnquoted
        } else if c == '\'' {
            LexMode::Squoted
        } else if c == '"' {
            LexMode::Dquoted
        } else {
            LexMode::Unquoted
        },
        LexMode::Squoted => if c == '\'' {
            LexMode::Unquoted
        } else {
            LexMode::Squoted
        },
        LexMode::Dquoted => if c == '\\' {
            LexMode::EscapedDquoted
        } else if c == '"' {
            LexMode::Unquoted
        } else {
            LexMode::Dquoted
        },
        LexMode::EscapedUnquoted => LexMode::Unquoted,
        LexMode::EscapedDquoted => LexMode::Dquoted,
    }
}

/// Split the raw line at every `|` that stands outside quoted regions.
pub fn split_pipes(line: &str) -> (segs: Vec<String>)
    ensures
        segs.deep_view() == spec_split_pipes(line@),
        segs.len() > 0,
{
    let n = line.unicode_len();
    let mut i: usize = 0;
    let mut mode = LexMode::Unquoted;
    let mut cur = String::new();
    let mut segs: Vec<String> = Vec::new();
    proof {
        assert(line@.subrange(0, n as int) =~= line@);
        assert(segs.deep_view() =~= Seq::<Seq<char>>::empty());
    }
    while i < n
        invariant
            n == line@.len(),
            i <= n,
            spec_split_pipes(line@) == split_pipes_rec(
                mode,
                line@.subrange(i as int, n as int),
                cur@,
                segs.deep_view(),
            ),
        decreases n - i,
    {
        let ghost pre_segs = segs.deep_view();
        let ghost pre_cur = cur@;
        let c = line.get_char(i);
        proof {
            let rest = line@.subrange(i as int, n as int);
            assert(rest[0] == line@[i as int]);
            assert(rest.drop_first() =~= line@.subrange(i + 1, n as int));
        }
        if mode == LexMode::Unquoted && c == '|' {
            segs.push(cur);
            cur = String::new();
            proof {
                assert(segs.deep_view() =~= pre_segs.push(pre_cur));
            }
        } else {
            mode = mode_step_exec(mode, c);
            push_char(&mut cur, c);
        }
        i = i + 1;
    }
    proof {
        assert(line@.subrange(i as int, n as int).len() == 0);
    }
    let ghost pre_segs = segs.deep_view();
    let ghost pre_cur = cur@;
    segs.push(cur);
    proof {
        assert(segs.deep_view() =~= pre_segs.push(pre_cur));
        lemma_split_pipes_rec_len(
            LexMode::Unquoted,
            line@,
            Seq::<char>::empty(),
            Seq::<Seq<char>>::empty(),
        );
    }
    segs
}

// ---------------------------------------------------------------------
// Recognizing redirection operators
// ---------------------------------------------------------------------
/// The operator spelled by a text, if any: the target descriptor and the
/// open mode. The two-character forms truncate; the three-character forms
/// append; a bare `>` or `>>` targets stdout.
pub open spec fn op_info(t: Seq<char>) -> Option<(u8, RedirMode)> {
    if t.len() == 1 && t[0] == '>' {
        Option::Some((1u8, RedirMode::Truncate))
    } else if t.len() == 2 && t[0] == '>' && t[1] == '>' {
        Option::Some((1u8, RedirMode::Append))
    } else if t.len() == 2 && t[0] == '1' && t[1] == '>' {
        Option::Some((1u8, RedirMode::Truncate))
    } else if t.len() == 2 && t[0] == '2' && t[1] == '>' {
        Option::Some((2u8, RedirMode::Truncate))
    } else if t.len() == 3 && t[0] == '1' && t[1] == '>' && t[2] == '>' {
        Option::Some((1u8, RedirMode::Append))
    } else if t.len() == 3 && t[0] == '2' && t[1] == '>' && t[2] == '>' {
        Option::Some((2u8, RedirMode::Append))
    } else {
        Option::None
    }
}

/// A word acts as an operator only when no part of it was quoted.
pub open spec fn word_op(w: WordV) -> Option<(u8, RedirMode)> {
    if w.quoted {
        Option::None
    } else {
        op_info(w.text)
    }
}

/// Executable operator recognition matching `word_op`.
pub fn word_op_exec(w: &Word) -> (r: Option<(u8, RedirMode)>)
    ensures
        r == word_op(w@),
{
    if w.quoted {
        return Option::None;
    }
    let t = w.text.as_str();
    let n = t.unicode_len();
    if n == 1 {
        if t.get_char(0) == '>' {
            return Option::Some((1u8, RedirMode::Truncate));
        }
    } else if n == 2 {
        let c0 = t.get_char(0);
        let c1 = t.get_char(1);
        if c0 == '>' && c1 == '>' {
            return Option::Some((1u8, RedirMode::Append));
        }
        if c0 == '1' && c1 == '>' {
            return Option::Some((1u8, RedirMode::Truncate));
        }
        if c0 == '2' && c1 == '>' {
            return Option::Some((2u8, RedirMode::Truncate));
        }
    } else if n == 3 {
        let c0 = t.get_char(0);
        let c1 = t.get_char(1);
        let c2 = t.get_char(2);
        if c0 == '1' && c1 == '>' && c2 == '>' {
            return Option::Some((1u8, RedirMode::Append));
        }
        if c0 == '2' && c1 == '>' && c2 == '>' {
            return Option::Some((2u8, RedirMode::Append));
        }
    }
    Option::None
}

// ---------------------------------------------------------------------
// Parsing one segment into a stage
// ---------------------------------------------------------------------
/// Left-to-right scan of a segment's words. An operator word consumes the
/// following word as its target path — a missing target is an error — and
/// a later operator for the same descriptor overwrites an earlier one.
/// Every other word joins the argument vector in order. A segment with no
/// arguments left is an error.
pub open spec fn parse_stage_rec(
    ws: Seq<WordV>,
    argv: Seq<Seq<char>>,
    out_r: Option<RedirV>,
    err_r: Option<RedirV>,
) -> Result<(Seq<Seq<char>>, Option<RedirV>, Option<RedirV>), ParseError>
    decreases ws.len(),
{
    if ws.len() == 0 {
        if argv.len() == 0 {
            Result::Err(ParseError::EmptyStage)
        } else {
            Result::Ok((argv, out_r, err_r))
        }
    } else {
        match word_op(ws[0]) {
            Option::Some(op) => {
                if ws.len() < 2 {
                    Result::Err(ParseError::MissingRedirectTarget)
                } else {
                    let r = RedirV { fd: op.0, path: ws[1].text, mode: op.1 };
                    if op.0 == 1 {
                        parse_stage_rec(ws.skip(2), argv, Option::Some(r), err_r)
                    } else {
                        parse_stage_rec(ws.skip(2), argv, out_r, Option::Some(r))
                    }
                }
            },
            Option::None => parse_stage_rec(ws.drop_first(), argv.push(ws[0].text), out_r, err_r),
        }
    }
}

pub open spec fn spec_parse_stage(ws: Seq<WordV>) -> Result<
    (Seq<Seq<char>>, Option<RedirV>, Option<RedirV>),
    ParseError,
> {
    parse_stage_rec(ws, Seq::empty(), Option::None, Option::None)
}

/// A stage is well formed when its argument vector is non-empty and each
/// redirection names the descriptor of the slot it sits in.
pub open spec fn stage_wf(s: StageV) -> bool {
    &&& s.argv.len() > 0
    &&& (s.stdout_redir matches Option::Some(r) ==> r.fd == 1)
    &&& (s.stderr_redir matches Option::Some(r) ==> r.fd == 2)
}

proof fn lemma_parse_stage_rec_wf(
    ws: Seq<WordV>,
    argv: Seq<Seq<char>>,
    out_r: Option<RedirV>,
    err_r: Option<RedirV>,
)
    requires
        out_r matches Option::Some(r) ==> r.fd == 1,
        err_r matches Option::Some(r) ==> r.fd == 2,
    ensures
        parse_stage_rec(ws, argv, out_r, err_r) matches Result::Ok(t) ==> t.0.len() > 0 && (
        t.1 matches Option::Some(r) ==> r.fd == 1) && (t.2 matches Option::Some(r) ==> r.fd == 2),
    decreases ws.len(),
{
    if ws.len() == 0 {
    } else {
        match word_op(ws[0]) {
            Option::Some(op) => {
                if ws.len() >= 2 {
                    let r = RedirV { fd: op.0, path: ws[1].text, mode: op.1 };
                    if op.0 == 1 {
                        lemma_parse_stage_rec_wf(ws.skip(2), argv, Option::Some(r), err_r);
                    } else {
                        lemma_parse_stage_rec_wf(ws.skip(2), argv, out_r, Option::Some(r));
                    }
                }
            },
            Option::None => {
                lemma_parse_stage_rec_wf(ws.drop_first(), argv.push(ws[0].text), out_r, err_r);
            },
        }
    }
}

/// Parse one segment's words into a stage standing at `position`.
pub fn parse_stage(words: &Vec<Word>, position: Position) -> (r: Result<Stage, ParseError>)
    ensures
        r matches Result::Ok(st) ==> spec_parse_stage(words_view(words@)) matches Result::Ok(t)
            && st@.argv == t.0 && st@.stdout_redir == t.1 && st@.stderr_redir == t.2
            && st@.position == position,
        r matches Result::Err(e) ==> spec_parse_stage(words_view(words@)) == Result::<
            (Seq<Seq<char>>, Option<RedirV>, Option<RedirV>),
            ParseError,
        >::Err(e),
{
    let ghost wv = words_view(words@);
    let n = words.len();
    let mut i: usize = 0;
    let mut argv: Vec<String> = Vec::new();
    let mut out_r: Option<Redirection> = Option::None;
    let mut err_r: Option<Redirection> = Option::None;
    proof {
        assert(wv.skip(0) =~= wv);
        assert(argv.deep_view() =~= Seq::<Seq<char>>::empty());
    }
    while i < n
        invariant
            n == words.len(),
            wv == words_view(words@),
            i <= n,
            spec_parse_stage(wv) == parse_stage_rec(
                wv.skip(i as int),
                argv.deep_view(),
                opt_redir_view(out_r),
                opt_redir_view(err_r),
            ),
        decreases n - i,
    {
        proof {
            let rest = wv.skip(i as int);
            assert(rest[0] == wv[i as int]);
            assert(rest.drop_first() =~= wv.skip(i + 1));
        }
        let op = word_op_exec(&words[i]);
        match op {
            Option::Some(fm) => {
                if i + 1 >= n {
                    return Result::Err(ParseError::MissingRedirectTarget);
                }
                proof {
                    let rest = wv.skip(i as int);
                    assert(rest[1] == wv[i + 1]);
                    assert(rest.skip(2) =~= wv.skip(i + 2));
                }
                let path = (&words[i + 1]).text.clone();
                let red = Redirection { fd: fm.0, path, mode: fm.1 };
                if fm.0 == 1 {
                    out_r = Option::Some(red);
                } else {
                    err_r = Option::Some(red);
                }
                i = i + 2;
            },
            Option::None => {
                let ghost pre = argv.deep_view();
                argv.push((&words[i]).text.clone());
                proof {
                    assert(argv.deep_view() =~= pre.push(wv[i as int].text));
                }
                i = i + 1;
            },
        }
    }
    proof {
        assert(wv.skip(i as int).len() == 0);
    }
    if argv.len() == 0 {
        return Result::Err(ParseError::EmptyStage);
    }
    Result::Ok(Stage { argv, stdout_redir: out_r, stderr_redir: err_r, position })
}

// ---------------------------------------------------------------------
// Parsing a whole line into a pipeline
// ---------------------------------------------------------------------
/// The position tag a stage gets from its index in a pipeline of `n`.
pub open spec fn pos_of(i: int, n: int) -> Position {
    if n == 1 {
        Position::Only
    } else if i == 0 {
        Position::First
    } else if i == n - 1 {
        Position::Last
    } else {
        Position::Middle
    }
}

/// Executable position assignment matching `pos_of`.
pub fn position_of(i: usize, n: usize) -> (p: Position)
    requires
        i < n,
    ensures
        p == pos_of(i as int, n as int),
{
    if n == 1 {
        Position::Only
    } else if i == 0 {
        Position::First
    } else if i == n - 1 {
        Position::Last
    } else {
        Position::Middle
    }
}

/// Parse the segments from index `i` on, in a pipeline of `n` segments in
/// all. The first failing segment's error wins.
pub open spec fn parse_segs_rec(segs: Seq<Seq<char>>, i: int, n: int) -> Result<
    Seq<StageV>,
    ParseError,
>
    decreases segs.len(),
{
    if segs.len() == 0 {
        Result::Ok(Seq::empty())
    } else {
        match spec_parse_stage(spec_lex(segs[0])) {
            Result::Err(e) => Result::Err(e),
            Result::Ok(t) => match parse_segs_rec(segs.drop_first(), i + 1, n) {
                Result::Err(e) => Result::Err(e),
                Result::Ok(rest) => Result::Ok(
                    seq![
                        StageV {
                            argv: t.0,
                            stdout_redir: t.1,
                            stderr_redir: t.2,
                            position: pos_of(i, n),
                        },
                    ] + rest,
                ),
            },
        }
    }
}

/// What a raw line parses to: nothing for a blank line, a pipeline, or the
/// first parse error.
pub open spec fn spec_parse_pipeline(l: Seq<char>) -> Result<Option<PipelineV>, ParseError> {
    let segs = spec_split_pipes(l);
    if segs.len() == 1 && spec_lex(segs[0]).len() == 0 {
        Result::Ok(Option::None)
    } else {
        match parse_segs_rec(segs, 0, segs.len() as int) {
            Result::Ok(stages) => Result::Ok(Option::Some(PipelineV { stages })),
            Result::Err(e) => Result::Err(e),
        }
    }
}

pub open spec fn parse_result_view(r: Result<Option<Pipeline>, ParseError>) -> Result<
    Option<PipelineV>,
    ParseError,
> {
    match r {
        Result::Ok(Option::Some(p)) => Result::Ok(Option::Some(p@)),
        Result::Ok(Option::None) => Result::Ok(Option::None),
        Result::Err(e) => Result::Err(e),
    }
}

/// A pipeline is well formed when it has at least one stage, every stage
/// is well formed, and every stage carries the position its index gives.
pub open spec fn pipeline_wf(p: PipelineV) -> bool {
    &&& p.stages.len() > 0
    &&& forall|i: int|
        0 <= i < p.stages.len() ==> stage_wf(#[trigger] p.stages[i]) && p.stages[i].position
            == pos_of(i, p.stages.len() as int)
}

proof fn lemma_parse_segs_rec_wf(segs: Seq<Seq<char>>, i: int, n: int)
    ensures
        parse_segs_rec(segs, i, n) matches Result::Ok(stages) ==> stages.len() == segs.len() && (
        forall|j: int|
            0 <= j < stages.len() ==> stage_wf(#[trigger] stages[j]) && stages[j].position
                == pos_of(i + j, n)),
    decreases segs.len(),
{
    if segs.len() == 0 {
    } else {
        match spec_parse_stage(spec_lex(segs[0])) {
            Result::Err(_) => {},
            Result::Ok(t) => {
                lemma_parse_stage_rec_wf(
                    spec_lex(segs[0]),
                    Seq::empty(),
                    Option::None,
                    Option::None,
                );
                lemma_parse_segs_rec_wf(segs.drop_first(), i + 1, n);
            },
        }
    }
}

/// Parse a raw line into a pipeline. Returns `Ok(None)` exactly when the
/// line holds no word at all (and no `|`); otherwise every stage's
/// argument vector is non-empty and positions follow the indices.
pub fn parse_pipeline(line: &str) -> (r: Result<Option<Pipeline>, ParseError>)
    ensures
        parse_result_view(r) == spec_parse_pipeline(line@),
        r matches Result::Ok(Option::Some(p)) ==> pipeline_wf(p@),
{
    let segs = split_pipes(line);
    let n = segs.len();
    let ghost segs_dv = segs.deep_view();
    let mut stages: Vec<Stage> = Vec::new();
    let mut i: usize = 0;
    {
        let first_words = lex((&segs[0]).as_str());
        if n == 1 && first_words.len() == 0 {
            proof {
                assert(words_view(first_words@).len() == 0);
            }
            return Result::Ok(Option::None);
        }
        proof {
            assert(!(segs_dv.len() == 1 && spec_lex(segs_dv[0]).len() == 0));
        }
    }
    proof {
        assert(segs_dv.skip(0) =~= segs_dv);
        assert(stages@.map_values(|s: Stage| s@) =~= Seq::<StageV>::empty());
    }
    while i < n
        invariant
            n == segs.len(),
            segs_dv == segs.deep_view(),
            segs_dv == spec_split_pipes(line@),
            !(segs_dv.len() == 1 && spec_lex(segs_dv[0]).len() == 0),
            i <= n,
            parse_segs_rec(segs_dv, 0, n as int) matches Result::Ok(all) ==> (parse_segs_rec(
                segs_dv.skip(i as int),
                i as int,
                n as int,
            ) matches Result::Ok(rest) && all == stages@.map_values(|s: Stage| s@) + rest),
            parse_segs_rec(segs_dv, 0, n as int) matches Result::Err(e) ==> parse_segs_rec(
                segs_dv.skip(i as int),
                i as int,
                n as int,
            ) == Result::<Seq<StageV>, ParseError>::Err(e),
        decreases n - i,
    {
        proof {
            let rest = segs_dv.skip(i as int);
            assert(rest[0] == segs_dv[i as int]);
            assert(rest.drop_first() =~= segs_dv.skip(i + 1));
        }
        let words = lex((&segs[i]).as_str());
        let position = position_of(i, n);
        let ghost pre = stages@.map_values(|s: Stage| s@);
        match parse_stage(&words, position) {
            Result::Ok(st) => {
                stages.push(st);
                proof {
                    assert(stages@.map_values(|s: Stage| s@) =~= pre.push(stages@.last()@));
                }
            },
            Result::Err(e) => {
                proof {
                    assert(words_view(words@) == spec_lex(segs_dv[i as int]));
                    assert(parse_segs_rec(segs_dv.skip(i as int), i as int, n as int) == Result::<
                        Seq<StageV>,
                        ParseError,
                    >::Err(e));
                    assert(segs_dv.len() == n);
                    if parse_segs_rec(segs_dv, 0, n as int) matches Result::Ok(all) {
                        assert(false);
                    }
                    assert(parse_segs_rec(segs_dv, 0, n as int) == Result::<
                        Seq<StageV>,
                        ParseError,
                    >::Err(e));
                }
                return Result::Err(e);
            },
        }
        proof {
            if parse_segs_rec(segs_dv, 0, n as int) matches Result::Ok(all) {
                assert(parse_segs_rec(segs_dv.skip(i as int), i as int, n as int)
                    matches Result::Ok(rest));
                let rest = parse_segs_rec(segs_dv.skip(i as int), i as int, n as int)->Ok_0;
                let rest2 = parse_segs_rec(segs_dv.skip(i + 1), i + 1, n as int)->Ok_0;
                assert(pre + rest =~= stages@.map_values(|s: Stage| s@) + rest2);
            }
        }
        i = i + 1;
    }
    proof {
        assert(segs_dv.skip(i as int).len() == 0);
        lemma_parse_segs_rec_wf(segs_dv, 0, n as int);
        assert(stages@.map_values(|s: Stage| s@) + Seq::<StageV>::empty() =~= stages@.map_values(
            |s: Stage| s@,
        ));
    }
    Result::Ok(Option::Some(Pipeline { stages }))
}

// ---------------------------------------------------------------------
// Laws of the parser
// ---------------------------------------------------------------------
/// Law: parsing is deterministic — the same input always yields the same
/// pipeline.
pub proof fn lemma_parse_deterministic(a: Seq<char>, b: Seq<char>)
    requires
        a == b,
    ensures
        spec_parse_pipeline(a) == spec_parse_pipeline(b),
{
}

pub open spec fn is_first_pos(p: Position) -> bool {
    p == Position::First || p == Position::Only
}

pub open spec fn is_last_pos(p: Position) -> bool {
    p == Position::Last || p == Position::Only
}

/// Law: in every well-formed pipeline exactly one stage stands in first
/// position — index 0 — and exactly one in last position — the final
/// index; the two coincide exactly when the pipeline has one stage.
pub proof fn lemma_positions(p: PipelineV)
    requires
        pipeline_wf(p),
    ensures
        forall|i: int|
            0 <= i < p.stages.len() ==> (is_first_pos(#[trigger] p.stages[i].position) <==> i
                == 0),
        forall|i: int|
            0 <= i < p.stages.len() ==> (is_last_pos(#[trigger] p.stages[i].position) <==> i
                == p.stages.len() - 1),
        (p.stages.len() == 1) <==> (is_first_pos(p.stages[0].position) && is_last_pos(
            p.stages[0].position,
        )),
{
}

} // verus!
