//! The lexer: one left-to-right pass that splits a raw command line into
//! words under single-quote, double-quote, and backslash-escape rules.
//!
//! Word boundaries occur only outside quotes, on whitespace. Adjacent
//! quoted and unquoted fragments concatenate into one word. A word that
//! contained a quoted fragment is emitted even when its text is empty, and
//! carries a flag saying so, because such a word must never be mistaken
//! for a redirection or pipe operator. An unterminated quote closes
//! implicitly at end of input.
use vstd::prelude::*;

use crate::strutil::join_sp;
use crate::strutil::push_char;

verus! {

/// Where in the quoting state machine the scan stands.
#[derive(PartialEq, Eq, Structural, Clone, Copy, Debug)]
pub enum LexMode {
    /// Outside any quotes.
    Unquoted,
    /// Inside single quotes: every character is literal until the close.
    Squoted,
    /// Inside double quotes: backslash may escape `"` and `\`.
    Dquoted,
    /// Just after a backslash seen outside quotes.
    EscapedUnquoted,
    /// Just after a backslash seen inside double quotes.
    EscapedDquoted,
}

/// The characters the host platform classifies as whitespace: the Unicode
/// white-space code points, as `char::is_whitespace` recognizes them.
pub open spec fn is_shell_ws(c: char) -> bool {
    let u = c as u32;
    u == 0x9 || u == 0xA || u == 0xB || u == 0xC || u == 0xD || u == 0x20 || u == 0x85 || u == 0xA0
        || u == 0x1680 || (0x2000 <= u && u <= 0x200A) || u == 0x2028 || u == 0x2029 || u == 0x202F
        || u == 0x205F || u == 0x3000
}

/// Executable whitespace test matching `is_shell_ws`.
pub fn is_whitespace_char(c: char) -> (r: bool)
    ensures
        r == is_shell_ws(c),
{
    let u = c as u32;
    u == 0x9 || u == 0xA || u == 0xB || u == 0xC || u == 0xD || u == 0x20 || u == 0x85 || u == 0xA0
        || u == 0x1680 || (0x2000 <= u && u <= 0x200A) || u == 0x2028 || u == 0x2029 || u == 0x202F
        || u == 0x205F || u == 0x3000
}

/// The mathematical model of a word: its text after quote and escape
/// processing, and whether any quoted fragment occurred in it.
#[verifier::ext_equal]
pub struct WordV {
    pub text: Seq<char>,
    pub quoted: bool,
}

/// One shell word: the processed text, and whether any part of it stood
/// inside quotes. Operator recognition in the parser demands an unquoted
/// word, so the flag is part of the word, not of the lexer alone.
pub struct Word {
    pub text: String,
    pub quoted: bool,
}

impl View for Word {
    type V = WordV;

    open spec fn view(&self) -> WordV {
        WordV { text: self.text@, quoted: self.quoted }
    }
}

pub open spec fn words_view(ws: Seq<Word>) -> Seq<WordV> {
    ws.map_values(|w: Word| w@)
}

pub open spec fn word_texts(ws: Seq<WordV>) -> Seq<Seq<char>> {
    ws.map_values(|w: WordV| w.text)
}

/// The full state of the scan: the mode, the word being accumulated, its
/// quoted flag, and the words already emitted.
#[verifier::ext_equal]
pub struct LexStV {
    pub mode: LexMode,
    pub cur: Seq<char>,
    pub quoted: bool,
    pub words: Seq<WordV>,
}

pub open spec fn lex_init() -> LexStV {
    LexStV { mode: LexMode::Unquoted, cur: Seq::empty(), quoted: false, words: Seq::empty() }
}

/// The mode transition alone. The pipeline splitter reuses this to decide
/// whether a `|` stands outside every quoted region.
pub open spec fn mode_step(m: LexMode, c: char) -> LexMode {
    match m {
        LexMode::Unquoted => if c == '\\' {
            LexMode::EscapedUnquoted
        } else if c == '\'' {
            LexMode::Squoted
        } else if c == '"' {
            LexMode::Dquoted
        } else {
            LexMode::Unquoted
        },
        LexMode::Squoted => if c == '\'' {
            LexMode::Unquoted
        } else {
            LexMode::Squoted
        },
        LexMode::Dquoted => if c == '\\' {
            LexMode::EscapedDquoted
        } else if c == '"' {
            LexMode::Unquoted
        } else {
            LexMode::Dquoted
        },
        LexMode::EscapedUnquoted => LexMode::Unquoted,
        LexMode::EscapedDquoted => LexMode::Dquoted,
    }
}

/// One step of the state machine on one character.
pub open spec fn lex_step(st: LexStV, c: char) -> LexStV {
    let m = mode_step(st.mode, c);
    match st.mode {
        LexMode::Unquoted => if c == '\\' {
            LexStV { mode: m, cur: st.cur, quoted: st.quoted, words: st.words }
        } else if c == '\'' || c == '"' {
            LexStV { mode: m, cur: st.cur, quoted: true, words: st.words }
        } else if is_shell_ws(c) {
            if st.cur.len() > 0 || st.quoted {
                LexStV {
                    mode: m,
                    cur: Seq::empty(),
                    quoted: false,
                    words: st.words.push(WordV { text: st.cur, quoted: st.quoted }),
                }
            } else {
                LexStV { mode: m, cur: st.cur, quoted: st.quoted, words: st.words }
            }
        } else {
            LexStV { mode: m, cur: st.cur.push(c), quoted: st.quoted, words: st.words }
        },
        LexMode::Squoted => if c == '\'' {
            LexStV { mode: m, cur: st.cur, quoted: st.quoted, words: st.words }
        } else {
            LexStV { mode: m, cur: st.cur.push(c), quoted: st.quoted, words: st.words }
        },
        LexMode::Dquoted => if c == '\\' || c == '"' {
            LexStV { mode: m, cur: st.cur, quoted: st.quoted, words: st.words }
        } else {
            LexStV { mode: m, cur: st.cur.push(c), quoted: st.quoted, words: st.words }
        },
        LexMode::EscapedUnquoted => LexStV {
            mode: m,
            cur: st.cur.push(c),
            quoted: st.quoted,
            words: st.words,
        },
        LexMode::EscapedDquoted => if c == '"' || c == '\\' {
            LexStV { mode: m, cur: st.cur.push(c), quoted: st.quoted, words: st.words }
        } else {
            LexStV { mode: m, cur: st.cur.push('\\').push(c), quoted: st.quoted, words: st.words }
        },
    }
}

/// The state machine run over a whole character sequence.
pub open spec fn lex_fold(st: LexStV, s: Seq<char>) -> LexStV
    decreases s.len(),
{
    if s.len() == 0 {
        st
    } else {
        lex_fold(lex_step(st, s[0]), s.drop_first())
    }
}

/// At end of input the pending word is flushed if it has any text or any
/// quoted fragment; an unterminated quote thereby closes implicitly.
pub open spec fn lex_finish(st: LexStV) -> Seq<WordV> {
    if st.cur.len() > 0 || st.quoted {
        st.words.push(WordV { text: st.cur, quoted: st.quoted })
    } else {
        st.words
    }
}

/// The words of a raw line.
pub open spec fn spec_lex(l: Seq<char>) -> Seq<WordV> {
    lex_finish(lex_fold(lex_init(), l))
}

/// Split a raw line into words. Never fails.
pub fn lex(line: &str) -> (words: Vec<Word>)
    ensures
        words_view(words@) == spec_lex(line@),
{
    let n = line.unicode_len();
    let mut i: usize = 0;
    let mut mode = LexMode::Unquoted;
    let mut cur = String::new();
    let mut quoted = false;
    let mut words: Vec<Word> = Vec::new();
    proof {
        assert(line@.subrange(0, n as int) =~= line@);
        assert(words_view(words@) =~= Seq::<WordV>::empty());
    }
    while i < n
        invariant
            n == line@.len(),
            i <= n,
            lex_fold(lex_init(), line@) == lex_fold(
                LexStV { mode, cur: cur@, quoted, words: words_view(words@) },
                line@.subrange(i as int, n as int),
            ),
        decreases n - i,
    {
        let ghost pre = LexStV { mode, cur: cur@, quoted, words: words_view(words@) };
        let c = line.get_char(i);
        proof {
            let rest = line@.subrange(i as int, n as int);
            assert(rest.len() > 0);
            assert(rest[0] == line@[i as int]);
            assert(rest.drop_first() =~= line@.subrange(i + 1, n as int));
        }
        match mode {
            LexMode::Unquoted => {
                if c == '\\' {
                    mode = LexMode::EscapedUnquoted;
                } else if c == '\'' {
                    mode = LexMode::Squoted;
                    quoted = true;
                } else if c == '"' {
                    mode = LexMode::Dquoted;
                    quoted = true;
                } else if is_whitespace_char(c) {
                    if !cur.as_str().is_empty() || quoted {
                        words.push(Word { text: cur, quoted });
                        cur = String::new();
                        quoted = false;
                        proof {
                            assert(words_view(words@) =~= pre.words.push(
                                WordV { text: pre.cur, quoted: pre.quoted },
                            ));
                        }
                    }
                } else {
                    push_char(&mut cur, c);
                }
            },
            LexMode::Squoted => {
                if c == '\'' {
                    mode = LexMode::Unquoted;
                } else {
                    push_char(&mut cur, c);
                }
            },
            LexMode::Dquoted => {
                if c == '\\' {
                    mode = LexMode::EscapedDquoted;
                } else if c == '"' {
                    mode = LexMode::Unquoted;
                } else {
                    push_char(&mut cur, c);
                }
            },
            LexMode::EscapedUnquoted => {
                mode = LexMode::Unquoted;
                push_char(&mut cur, c);
            },
            LexMode::EscapedDquoted => {
                mode = LexMode::Dquoted;
                if c == '"' || c == '\\' {
                    push_char(&mut cur, c);
                } else {
                    push_char(&mut cur, '\\');
                    push_char(&mut cur, c);
                }
            },
        }
        proof {
            assert(LexStV { mode, cur: cur@, quoted, words: words_view(words@) } =~= lex_step(
                pre,
                line@[i as int],
            ));
        }
        i = i + 1;
    }
    proof {
        assert(line@.subrange(i as int, n as int).len() == 0);
    }
    if !cur.as_str().is_empty() || quoted {
        let ghost pre = LexStV { mode, cur: cur@, quoted, words: words_view(words@) };
        words.push(Word { text: cur, quoted });
        proof {
            assert(words_view(words@) =~= pre.words.push(
                WordV { text: pre.cur, quoted: pre.quoted },
            ));
        }
    }
    words
}

/// Split a raw line into word texts, the quoted flags dropped.
pub fn arg_parse(line: &str) -> (args: Vec<String>)
    ensures
        args.deep_view() == word_texts(spec_lex(line@)),
{
    let words = lex(line);
    let mut args: Vec<String> = Vec::new();
    let mut i: usize = 0;
    while i < words.len()
        invariant
            words_view(words@) == spec_lex(line@),
            i <= words.len(),
            args.deep_view().len() == i,
            forall|j: int| 0 <= j < i ==> args.deep_view()[j] == words_view(words@)[j].text,
        decreases words.len() - i,
    {
        let ghost pre = args.deep_view();
        let w = &words[i];
        args.push(w.text.clone());
        proof {
            assert(args.deep_view() =~= pre.push(words_view(words@)[i as int].text));
        }
        i = i + 1;
    }
    proof {
        assert(args.deep_view() =~= word_texts(spec_lex(line@)));
    }
    args
}

// ---------------------------------------------------------------------
// Laws of the lexer
// ---------------------------------------------------------------------
/// A character that the lexer passes through untouched: not whitespace,
/// not a quote, not a backslash.
pub open spec fn is_plain_char(c: char) -> bool {
    !is_shell_ws(c) && c != '\\' && c != '\'' && c != '"'
}

/// A word the lexer reproduces verbatim: non-empty and made of plain
/// characters only.
pub open spec fn plain_word(w: Seq<char>) -> bool {
    w.len() > 0 && forall|i: int| 0 <= i < w.len() ==> is_plain_char(#[trigger] w[i])
}

pub proof fn lemma_lex_fold_append(st: LexStV, a: Seq<char>, b: Seq<char>)
    ensures
        lex_fold(st, a + b) == lex_fold(lex_fold(st, a), b),
    decreases a.len(),
{
    if a.len() == 0 {
        assert(a + b =~= b);
    } else {
        assert((a + b)[0] == a[0]);
        assert((a + b).drop_first() =~= a.drop_first() + b);
        lemma_lex_fold_append(lex_step(st, a[0]), a.drop_first(), b);
    }
}

proof fn lemma_lex_plain_chars(st: LexStV, w: Seq<char>)
    requires
        st.mode == LexMode::Unquoted,
        forall|i: int| 0 <= i < w.len() ==> is_plain_char(#[trigger] w[i]),
    ensures
        lex_fold(st, w) == (LexStV {
            mode: LexMode::Unquoted,
            cur: st.cur + w,
            quoted: st.quoted,
            words: st.words,
        }),
    decreases w.len(),
{
    if w.len() == 0 {
        assert(st.cur + w =~= st.cur);
        assert(lex_fold(st, w) =~= LexStV {
            mode: LexMode::Unquoted,
            cur: st.cur + w,
            quoted: st.quoted,
            words: st.words,
        });
    } else {
        let c = w[0];
        let st1 = lex_step(st, c);
        assert(st1.mode == LexMode::Unquoted && st1.cur == st.cur.push(c) && st1.quoted
            == st.quoted && st1.words == st.words);
        assert(forall|i: int| 0 <= i < w.drop_first().len() ==> is_plain_char(
            #[trigger] w.drop_first()[i],
        ));
        lemma_lex_plain_chars(st1, w.drop_first());
        assert(st.cur.push(c) + w.drop_first() =~= st.cur + w);
    }
}

/// The word sequence `ws`, each entry taken as an unquoted word.
pub open spec fn plain_words(ws: Seq<Seq<char>>) -> Seq<WordV> {
    ws.map_values(|t: Seq<char>| WordV { text: t, quoted: false })
}

proof fn lemma_lex_words(st: LexStV, ws: Seq<Seq<char>>)
    requires
        st.mode == LexMode::Unquoted,
        st.cur.len() == 0,
        !st.quoted,
        forall|i: int| 0 <= i < ws.len() ==> plain_word(#[trigger] ws[i]),
    ensures
        lex_finish(lex_fold(st, join_sp(ws))) == st.words + plain_words(ws),
    decreases ws.len(),
{
    if ws.len() == 0 {
        assert(lex_finish(st) =~= st.words + plain_words(ws));
    } else if ws.len() == 1 {
        lemma_lex_plain_chars(st, ws[0]);
        let st1 = lex_fold(st, ws[0]);
        assert(st1.cur =~= ws[0]);
        assert(lex_finish(st1) =~= st.words + plain_words(ws)) by {
            assert(plain_words(ws) =~= seq![WordV { text: ws[0], quoted: false }]);
        }
    } else {
        let head = ws[0];
        let sep: Seq<char> = seq![' '];
        let rest = join_sp(ws.drop_first());
        assert(join_sp(ws) == head + sep + rest);
        lemma_lex_fold_append(st, head + sep, rest);
        lemma_lex_fold_append(st, head, sep);
        assert(head + sep + rest =~= (head + sep) + rest);
        lemma_lex_plain_chars(st, head);
        let st1 = lex_fold(st, head);
        assert(st1.cur =~= head);
        // One space flushes the accumulated word.
        let st2 = lex_fold(st1, sep);
        assert(st2 == lex_step(st1, ' ')) by {
            reveal_with_fuel(lex_fold, 2);
            assert(sep[0] == ' ');
            assert(sep.drop_first() =~= Seq::<char>::empty());
        }
        assert(is_shell_ws(' '));
        assert(st2.mode == LexMode::Unquoted && st2.cur.len() == 0 && !st2.quoted && st2.words
            == st.words.push(WordV { text: head, quoted: false }));
        assert(forall|i: int| 0 <= i < ws.drop_first().len() ==> plain_word(
            #[trigger] ws.drop_first()[i],
        ));
        lemma_lex_words(st2, ws.drop_first());
        assert(st.words.push(WordV { text: head, quoted: false }) + plain_words(ws.drop_first())
            =~= st.words + plain_words(ws));
    }
}

/// Law (round trip): lexing the single-space join of plain words returns
/// exactly those words, unquoted. A plain word is non-empty and free of
/// whitespace, quote, and backslash characters; whether any entry spells
/// an operator token is immaterial to the lexer.
pub proof fn lemma_lex_round_trip(ws: Seq<Seq<char>>)
    requires
        forall|i: int| 0 <= i < ws.len() ==> plain_word(#[trigger] ws[i]),
    ensures
        spec_lex(join_sp(ws)) == plain_words(ws),
        word_texts(spec_lex(join_sp(ws))) == ws,
{
    lemma_lex_words(lex_init(), ws);
    assert(lex_init().words + plain_words(ws) =~= plain_words(ws));
    assert(word_texts(plain_words(ws)) =~= ws);
}

/// Scan that cuts a line at whitespace into its maximal whitespace-free
/// runs, the reference for whitespace normalization.
pub open spec fn split_ws_rec(l: Seq<char>, cur: Seq<char>, acc: Seq<Seq<char>>) -> Seq<Seq<char>>
    decreases l.len(),
{
    if l.len() == 0 {
        if cur.len() > 0 {
            acc.push(cur)
        } else {
            acc
        }
    } else if is_shell_ws(l[0]) {
        if cur.len() > 0 {
            split_ws_rec(l.drop_first(), Seq::empty(), acc.push(cur))
        } else {
            split_ws_rec(l.drop_first(), Seq::empty(), acc)
        }
    } else {
        split_ws_rec(l.drop_first(), cur.push(l[0]), acc)
    }
}

/// The maximal whitespace-free runs of a line, in order.
pub open spec fn split_ws(l: Seq<char>) -> Seq<Seq<char>> {
    split_ws_rec(l, Seq::empty(), Seq::empty())
}

/// A character that opens no quote and escapes nothing.
pub open spec fn is_quoteless(c: char) -> bool {
    c != '\\' && c != '\'' && c != '"'
}

/// A line in which quoting plays no part.
pub open spec fn quoteless(l: Seq<char>) -> bool {
    forall|i: int| 0 <= i < l.len() ==> is_quoteless(#[trigger] l[i])
}

proof fn lemma_lex_unquoted_rec(l: Seq<char>, cur: Seq<char>, words: Seq<WordV>)
    requires
        quoteless(l),
    ensures
        word_texts(
            lex_finish(
                lex_fold(LexStV { mode: LexMode::Unquoted, cur, quoted: false, words }, l),
            ),
        ) == split_ws_rec(l, cur, word_texts(words)),
    decreases l.len(),
{
    let st = LexStV { mode: LexMode::Unquoted, cur, quoted: false, words };
    if l.len() == 0 {
        if cur.len() > 0 {
            assert(word_texts(lex_finish(st)) =~= word_texts(words).push(cur));
        } else {
            assert(word_texts(lex_finish(st)) =~= word_texts(words));
        }
    } else {
        let c = l[0];
        assert(quoteless(l.drop_first())) by {
            assert(forall|i: int|
                0 <= i < l.drop_first().len() ==> #[trigger] l.drop_first()[i] == l[i + 1]);
        }
        assert(is_quoteless(c));
        if is_shell_ws(c) {
            if cur.len() > 0 {
                let pushed = words.push(WordV { text: cur, quoted: false });
                assert(word_texts(pushed) =~= word_texts(words).push(cur));
                assert(lex_step(st, c) == (LexStV {
                    mode: LexMode::Unquoted,
                    cur: Seq::<char>::empty(),
                    quoted: false,
                    words: pushed,
                }));
                lemma_lex_unquoted_rec(l.drop_first(), Seq::empty(), pushed);
            } else {
                assert(cur =~= Seq::<char>::empty());
                assert(lex_step(st, c) == (LexStV {
                    mode: LexMode::Unquoted,
                    cur: Seq::<char>::empty(),
                    quoted: false,
                    words,
                }));
                lemma_lex_unquoted_rec(l.drop_first(), Seq::empty(), words);
            }
        } else {
            assert(lex_step(st, c) == (LexStV {
                mode: LexMode::Unquoted,
                cur: cur.push(c),
                quoted: false,
                words,
            }));
            lemma_lex_unquoted_rec(l.drop_first(), cur.push(c), words);
        }
    }
}

/// Law (reconstruction): for a line without quote or escape characters,
/// the lexed word texts are exactly the line's maximal whitespace-free
/// runs; joining them with single spaces therefore reconstructs the line
/// up to whitespace normalization. With quotes in play the law cannot
/// hold verbatim, since the lexer removes the quote characters.
pub proof fn lemma_lex_reconstructs(l: Seq<char>)
    requires
        quoteless(l),
    ensures
        word_texts(spec_lex(l)) == split_ws(l),
        crate::strutil::join_sp(word_texts(spec_lex(l))) == crate::strutil::join_sp(split_ws(l)),
{
    lemma_lex_unquoted_rec(l, Seq::empty(), Seq::empty());
    assert(word_texts(Seq::<WordV>::empty()) =~= Seq::<Seq<char>>::empty());
}

} // verus!
