//! Command lines as one line of text, written and read the way a shell does
//! it: arguments stand apart by white space, and quotes and backslashes let
//! an argument hold any character.

use vstd::prelude::*;
use crate::text::{is_space, is_whitespace, join_words, joined, lemma_scan_push, scan, texts, words};

verus! {

/// Where the reader of a line stands.
#[derive(Clone, Copy, Debug, PartialEq, Eq, Structural)]
pub enum Mode {
    /// Outside quotes.
    Plain,
    /// Outside quotes, right after a backslash.
    Escaped,
    /// Between single quotes.
    Single,
    /// Between double quotes.
    Double,
    /// Between double quotes, right after a backslash.
    DoubleEscaped,
}

/// What the reader of a line holds: the arguments that have ended, the
/// characters of the argument that is open, whether one is open at all (an
/// open argument may still be empty, as after `''`), and the mode.
pub struct Lexer {
    pub done: Seq<Seq<char>>,
    pub word: Seq<char>,
    pub started: bool,
    pub mode: Mode,
}

/// The reader before the first character.
pub open spec fn lex_start() -> Lexer {
    Lexer { done: Seq::empty(), word: Seq::empty(), started: false, mode: Mode::Plain }
}

/// The reader after one more character.
///
/// Outside quotes, white space ends the open argument, a quote opens a quoted
/// run in the open argument, and a backslash takes the next character as it
/// is. Between single quotes every character but the single quote stands for
/// itself. Between double quotes a backslash before a double quote or a
/// backslash gives that character, and before anything else stands for
/// itself. The quotes and the backslashes that do this work are dropped.
pub open spec fn lex_step(st: Lexer, c: char) -> Lexer {
    match st.mode {
        Mode::Plain => if c == '\\' {
            Lexer { started: true, mode: Mode::Escaped, ..st }
        } else if c == '\'' {
            Lexer { started: true, mode: Mode::Single, ..st }
        } else if c == '"' {
            Lexer { started: true, mode: Mode::Double, ..st }
        } else if is_space(c) {
            if st.started {
                Lexer {
                    done: st.done.push(st.word),
                    word: Seq::empty(),
                    started: false,
                    mode: Mode::Plain,
                }
            } else {
                st
            }
        } else {
            Lexer { word: st.word.push(c), started: true, ..st }
        },
        Mode::Escaped => Lexer { word: st.word.push(c), mode: Mode::Plain, ..st },
        Mode::Single => if c == '\'' {
            Lexer { mode: Mode::Plain, ..st }
        } else {
            Lexer { word: st.word.push(c), ..st }
        },
        Mode::Double => if c == '"' {
            Lexer { mode: Mode::Plain, ..st }
        } else if c == '\\' {
            Lexer { mode: Mode::DoubleEscaped, ..st }
        } else {
            Lexer { word: st.word.push(c), ..st }
        },
        Mode::DoubleEscaped => if c == '"' || c == '\\' {
            Lexer { word: st.word.push(c), mode: Mode::Double, ..st }
        } else {
            Lexer { word: st.word.push('\\').push(c), mode: Mode::Double, ..st }
        },
    }
}

/// The reader after the characters of `s`, read from `st` on.
pub open spec fn lex_from(st: Lexer, s: Seq<char>) -> Lexer
    decreases s.len(),
{
    if s.len() == 0 {
        st
    } else {
        lex_step(lex_from(st, s.drop_last()), s.last())
    }
}

/// The arguments of a line, read as a shell reads them; `None` where the line
/// ends inside a quote or right after a backslash.
pub open spec fn shell_words(s: Seq<char>) -> Option<Seq<Seq<char>>> {
    let end = lex_from(lex_start(), s);
    if end.mode != Mode::Plain {
        None
    } else if end.started {
        Some(end.done.push(end.word))
    } else {
        Some(end.done)
    }
}

/// The texts of an optional list of strings.
pub open spec fn texts_of(v: Option<Vec<String>>) -> Option<Seq<Seq<char>>> {
    match v {
        Some(list) => Some(texts(list@)),
        None => None,
    }
}

/// Reads a line into its arguments; `None` where a quote is left open or the
/// line ends with a backslash.
pub fn split_shell(line: &str) -> (out: Option<Vec<String>>)
    ensures
        texts_of(out) == shell_words(line@),
{
    broadcast use vstd::string::group_string_axioms;

    let mut done: Vec<String> = Vec::new();
    let mut word = String::new();
    let mut started = false;
    let mut mode = Mode::Plain;
    assert(line@.take(0) =~= Seq::<char>::empty());
    assert(texts(done@) =~= Seq::<Seq<char>>::empty());
    for c in it: line.chars()
        invariant
            it.seq() == line@,
            lex_from(lex_start(), line@.take(it.index())) == (Lexer {
                done: texts(done@),
                word: word@,
                started,
                mode,
            }),
    {
        proof {
            let prefix = line@.take(it.index() + 1);
            assert(prefix.drop_last() =~= line@.take(it.index()));
            assert(prefix.last() == c);
        }
        match mode {
            Mode::Plain => {
                if c == '\\' {
                    started = true;
                    mode = Mode::Escaped;
                } else if c == '\'' {
                    started = true;
                    mode = Mode::Single;
                } else if c == '"' {
                    started = true;
                    mode = Mode::Double;
                } else if is_whitespace(c) {
                    if started {
                        let ghost before = texts(done@);
                        let ghost ended = word@;
                        done.push(word);
                        word = String::new();
                        started = false;
                        assert(texts(done@) =~= before.push(ended));
                    }
                } else {
                    word.push(c);
                    started = true;
                }
            },
            Mode::Escaped => {
                word.push(c);
                mode = Mode::Plain;
            },
            Mode::Single => {
                if c == '\'' {
                    mode = Mode::Plain;
                } else {
                    word.push(c);
                }
            },
            Mode::Double => {
                if c == '"' {
                    mode = Mode::Plain;
                } else if c == '\\' {
                    mode = Mode::DoubleEscaped;
                } else {
                    word.push(c);
                }
            },
            Mode::DoubleEscaped => {
                if c == '"' || c == '\\' {
                    word.push(c);
                } else {
                    word.push('\\');
                    word.push(c);
                }
                mode = Mode::Double;
            },
        }
    }
    assert(line@.take(line@.len() as int) =~= line@);
    match mode {
        Mode::Plain => {
            if started {
                let ghost before = texts(done@);
                let ghost ended = word@;
                done.push(word);
                assert(texts(done@) =~= before.push(ended));
            }
            Some(done)
        },
        _ => None,
    }
}

/// Whether a character stands for itself outside quotes and ends no
/// argument.
pub open spec fn is_plain_char(c: char) -> bool {
    !is_space(c) && c != '\'' && c != '"' && c != '\\'
}

/// Whether an argument can be written as it is: it is not empty and all its
/// characters are plain.
pub open spec fn is_bare_word(w: Seq<char>) -> bool {
    w.len() > 0 && forall|i: int| 0 <= i < w.len() ==> is_plain_char(#[trigger] w[i])
}

/// One character as it is written between single quotes: itself, but that a
/// single quote closes the quotes, stands between double quotes, and opens
/// them again.
pub open spec fn quoted_char(c: char) -> Seq<char> {
    if c == '\'' {
        seq!['\'', '"', '\'', '"', '\'']
    } else {
        seq![c]
    }
}

/// The characters of an argument as they are written between single quotes.
pub open spec fn quoted_body(w: Seq<char>) -> Seq<char>
    decreases w.len(),
{
    if w.len() == 0 {
        Seq::empty()
    } else {
        quoted_body(w.drop_last()) + quoted_char(w.last())
    }
}

/// An argument between single quotes.
pub open spec fn quoted(w: Seq<char>) -> Seq<char> {
    seq!['\''] + quoted_body(w) + seq!['\'']
}

/// An argument as it is written in a line: as it is where it is a bare word,
/// else between single quotes.
pub open spec fn encoded_word(w: Seq<char>) -> Seq<char> {
    if is_bare_word(w) {
        w
    } else {
        quoted(w)
    }
}

/// A command line as one line of text: its arguments, each written so that
/// it reads back as itself, joined by single spaces.
pub open spec fn encoded(argv: Seq<Seq<char>>) -> Seq<char> {
    joined(argv.map_values(|w: Seq<char>| encoded_word(w)))
}

/// Whether an argument can be written as it is.
pub fn is_bare(arg: &str) -> (out: bool)
    ensures
        out == is_bare_word(arg@),
{
    broadcast use vstd::string::group_string_axioms;

    let mut seen = false;
    let mut plain = true;
    for c in it: arg.chars()
        invariant
            it.seq() == arg@,
            seen == (it.index() > 0),
            plain == forall|i: int| 0 <= i < it.index() ==> is_plain_char(#[trigger] arg@[i]),
    {
        seen = true;
        if is_whitespace(c) || c == '\'' || c == '"' || c == '\\' {
            plain = false;
        }
    }
    seen && plain
}

/// Writes an argument so that it reads back as itself.
pub fn quote_argument(arg: &str) -> (out: String)
    ensures
        out@ == encoded_word(arg@),
{
    broadcast use vstd::string::group_string_axioms;

    if is_bare(arg) {
        return arg.to_owned();
    }
    let mut out = String::new();
    out.push('\'');
    assert(arg@.take(0) =~= Seq::<char>::empty());
    assert(out@ =~= seq!['\''] + quoted_body(arg@.take(0)));
    for c in it: arg.chars()
        invariant
            it.seq() == arg@,
            out@ == seq!['\''] + quoted_body(arg@.take(it.index())),
    {
        let ghost before = out@;
        proof {
            let prefix = arg@.take(it.index() + 1);
            assert(prefix.drop_last() =~= arg@.take(it.index()));
            assert(prefix.last() == c);
        }
        if c == '\'' {
            out.push('\'');
            out.push('"');
            out.push('\'');
            out.push('"');
            out.push('\'');
        } else {
            out.push(c);
        }
        assert(out@ =~= before + quoted_char(c));
        assert(out@ =~= seq!['\''] + quoted_body(arg@.take(it.index() + 1)));
    }
    assert(arg@.take(arg@.len() as int) =~= arg@);
    out.push('\'');
    assert(out@ =~= quoted(arg@));
    out
}

/// Writes a command line as one line of text.
pub fn encode(argv: &Vec<String>) -> (out: String)
    ensures
        out@ == encoded(texts(argv@)),
{
    let mut parts: Vec<String> = Vec::new();
    let mut i: usize = 0;
    while i < argv.len()
        invariant
            i <= argv.len(),
            parts@.len() == i,
            forall|k: int| 0 <= k < i ==> (#[trigger] parts@[k])@ == encoded_word(argv@[k]@),
        decreases argv.len() - i,
    {
        parts.push(quote_argument(argv[i].as_str()));
        i = i + 1;
    }
    assert(texts(parts@) =~= texts(argv@).map_values(|w: Seq<char>| encoded_word(w)));
    join_words(&parts)
}

/// Reading one more character.
pub proof fn lemma_lex_push(st: Lexer, s: Seq<char>, c: char)
    ensures
        lex_from(st, s.push(c)) == lex_step(lex_from(st, s), c),
{
    assert(s.push(c).drop_last() =~= s);
}

/// Reading two texts one after the other is reading them as one.
pub proof fn lemma_lex_concat(st: Lexer, a: Seq<char>, b: Seq<char>)
    ensures
        lex_from(st, a + b) == lex_from(lex_from(st, a), b),
    decreases b.len(),
{
    if b.len() == 0 {
        assert(a + b =~= a);
    } else {
        lemma_lex_concat(st, a, b.drop_last());
        assert((a + b).drop_last() =~= a + b.drop_last());
        assert((a + b).last() == b.last());
    }
}

/// Outside quotes, plain characters only lengthen the open argument.
pub proof fn lemma_lex_plain(st: Lexer, w: Seq<char>)
    requires
        st.mode == Mode::Plain,
        forall|i: int| 0 <= i < w.len() ==> is_plain_char(#[trigger] w[i]),
    ensures
        lex_from(st, w) == (Lexer {
            word: st.word + w,
            started: st.started || w.len() > 0,
            ..st
        }),
    decreases w.len(),
{
    if w.len() == 0 {
        assert(st.word + w =~= st.word);
    } else {
        lemma_lex_plain(st, w.drop_last());
        assert(is_plain_char(w.last()));
        assert((st.word + w.drop_last()).push(w.last()) =~= st.word + w);
    }
}

/// Between single quotes, the written form of one character adds that
/// character to the open argument and leaves the reader between single
/// quotes.
pub proof fn lemma_lex_quoted_char(st: Lexer, c: char)
    requires
        st.mode == Mode::Single,
        st.started,
    ensures
        lex_from(st, quoted_char(c)) == (Lexer { word: st.word.push(c), ..st }),
{
    let none = Seq::<char>::empty();
    if c == '\'' {
        let s1 = none.push('\'');
        let s2 = s1.push('"');
        let s3 = s2.push('\'');
        let s4 = s3.push('"');
        let s5 = s4.push('\'');
        assert(quoted_char(c) =~= s5);
        assert(lex_from(st, none) == st);
        lemma_lex_push(st, none, '\'');
        assert(lex_from(st, s1) == (Lexer { mode: Mode::Plain, ..st }));
        lemma_lex_push(st, s1, '"');
        assert(lex_from(st, s2) == (Lexer { started: true, mode: Mode::Double, ..st }));
        lemma_lex_push(st, s2, '\'');
        assert(lex_from(st, s3) == (Lexer {
            word: st.word.push('\''),
            started: true,
            mode: Mode::Double,
            ..st
        }));
        lemma_lex_push(st, s3, '"');
        lemma_lex_push(st, s4, '\'');
    } else {
        assert(quoted_char(c) =~= none.push(c));
        assert(lex_from(st, none) == st);
        lemma_lex_push(st, none, c);
    }
}

/// Between single quotes, the written form of an argument adds the argument
/// to the open one.
pub proof fn lemma_lex_quoted_body(st: Lexer, w: Seq<char>)
    requires
        st.mode == Mode::Single,
        st.started,
    ensures
        lex_from(st, quoted_body(w)) == (Lexer { word: st.word + w, ..st }),
    decreases w.len(),
{
    if w.len() == 0 {
        assert(st.word + w =~= st.word);
    } else {
        let front = w.drop_last();
        lemma_lex_quoted_body(st, front);
        lemma_lex_concat(st, quoted_body(front), quoted_char(w.last()));
        lemma_lex_quoted_char(Lexer { word: st.word + front, ..st }, w.last());
        assert((st.word + front).push(w.last()) =~= st.word + w);
    }
}

/// Outside quotes, the written form of an argument adds the argument to the
/// open one, which is open from then on, and leaves the reader outside
/// quotes.
pub proof fn lemma_lex_encoded_word(st: Lexer, w: Seq<char>)
    requires
        st.mode == Mode::Plain,
    ensures
        lex_from(st, encoded_word(w)) == (Lexer { word: st.word + w, started: true, ..st }),
{
    if is_bare_word(w) {
        lemma_lex_plain(st, w);
    } else {
        let none = Seq::<char>::empty();
        let open = none.push('\'');
        assert(seq!['\''] =~= open);
        lemma_lex_push(st, none, '\'');
        let inside = Lexer { started: true, mode: Mode::Single, ..st };
        assert(lex_from(st, open) == inside);
        lemma_lex_concat(st, open, quoted_body(w));
        lemma_lex_quoted_body(inside, w);
        assert(quoted(w) =~= (open + quoted_body(w)).push('\''));
        lemma_lex_push(st, open + quoted_body(w), '\'');
    }
}

/// The reader after a written command line holds all arguments but the last
/// as ended and the last as open.
pub proof fn lemma_lex_encoded(argv: Seq<Seq<char>>)
    requires
        argv.len() > 0,
    ensures
        lex_from(lex_start(), encoded(argv)) == (Lexer {
            done: argv.drop_last(),
            word: argv.last(),
            started: true,
            mode: Mode::Plain,
        }),
    decreases argv.len(),
{
    let none = Seq::<char>::empty();
    let written = argv.map_values(|w: Seq<char>| encoded_word(w));
    if argv.len() == 1 {
        assert(encoded(argv) == encoded_word(argv[0]));
        lemma_lex_encoded_word(lex_start(), argv[0]);
        assert(none + argv[0] =~= argv[0]);
        assert(argv.drop_last() =~= Seq::<Seq<char>>::empty());
    } else {
        let front = argv.drop_last();
        lemma_lex_encoded(front);
        assert(written.drop_last() =~= front.map_values(|w: Seq<char>| encoded_word(w)));
        assert(written.last() == encoded_word(argv.last()));
        let head = encoded(front).push(' ');
        assert(encoded(argv) == head + encoded_word(argv.last()));
        lemma_lex_push(lex_start(), encoded(front), ' ');
        assert(front.drop_last().push(front.last()) =~= front);
        lemma_lex_concat(lex_start(), head, encoded_word(argv.last()));
        lemma_lex_encoded_word(lex_from(lex_start(), head), argv.last());
        assert(none + argv.last() =~= argv.last());
    }
}

/// Reading undoes writing: every command line, written as one line of text,
/// reads back as itself, whatever its arguments hold.
pub proof fn lemma_shell_words_of_encoded(argv: Seq<Seq<char>>)
    ensures
        shell_words(encoded(argv)) == Some(argv),
{
    if argv.len() > 0 {
        lemma_lex_encoded(argv);
        assert(argv.drop_last().push(argv.last()) =~= argv);
    } else {
        assert(argv =~= Seq::<Seq<char>>::empty());
    }
}

/// Whether a text holds no line feed.
pub open spec fn on_one_line(s: Seq<char>) -> bool {
    forall|i: int| 0 <= i < s.len() ==> (#[trigger] s[i]) != '\n'
}

/// Whether no argument holds a line feed.
pub open spec fn all_on_one_line(argv: Seq<Seq<char>>) -> bool {
    forall|k: int| 0 <= k < argv.len() ==> on_one_line(#[trigger] argv[k])
}

/// An argument without a line feed is written without one.
pub proof fn lemma_encoded_word_on_one_line(w: Seq<char>)
    requires
        on_one_line(w),
    ensures
        on_one_line(quoted_body(w)),
        on_one_line(encoded_word(w)),
    decreases w.len(),
{
    if w.len() > 0 {
        let front = w.drop_last();
        assert(on_one_line(front)) by {
            assert forall|i: int| 0 <= i < front.len() implies (#[trigger] front[i]) != '\n' by {
                assert(front[i] == w[i]);
            }
        }
        lemma_encoded_word_on_one_line(front);
        assert(w.last() == w[w.len() - 1]);
    }
}

/// A command line whose arguments hold no line feed is written as one line.
pub proof fn lemma_encoded_on_one_line(argv: Seq<Seq<char>>)
    requires
        all_on_one_line(argv),
    ensures
        on_one_line(encoded(argv)),
    decreases argv.len(),
{
    let written = argv.map_values(|w: Seq<char>| encoded_word(w));
    if argv.len() == 1 {
        lemma_encoded_word_on_one_line(argv[0]);
    } else if argv.len() > 1 {
        let front = argv.drop_last();
        assert(all_on_one_line(front)) by {
            assert forall|k: int| 0 <= k < front.len() implies on_one_line(#[trigger] front[k]) by {
                assert(front[k] == argv[k]);
            }
        }
        lemma_encoded_on_one_line(front);
        assert(written.drop_last() =~= front.map_values(|w: Seq<char>| encoded_word(w)));
        assert(argv.last() == argv[argv.len() - 1]);
        lemma_encoded_word_on_one_line(argv.last());
    }
}

/// A line without quotes and backslashes reads as its maximal runs of
/// characters that are not white space.
pub proof fn lemma_plain_line_reads_as_words(s: Seq<char>)
    requires
        forall|i: int| 0 <= i < s.len() ==> (#[trigger] s[i]) != '\'' && s[i] != '"' && s[i] != '\\',
    ensures
        shell_words(s) == Some(words(s)),
{
    lemma_plain_line_lexes_as_scan(s);
}

proof fn lemma_plain_line_lexes_as_scan(s: Seq<char>)
    requires
        forall|i: int| 0 <= i < s.len() ==> (#[trigger] s[i]) != '\'' && s[i] != '"' && s[i] != '\\',
    ensures
        lex_from(lex_start(), s) == (Lexer {
            done: scan(s).done,
            word: scan(s).pending,
            started: scan(s).pending.len() > 0,
            mode: Mode::Plain,
        }),
    decreases s.len(),
{
    if s.len() > 0 {
        let front = s.drop_last();
        assert forall|i: int| 0 <= i < front.len() implies (#[trigger] front[i]) != '\''
            && front[i] != '"' && front[i] != '\\' by {
            assert(front[i] == s[i]);
        }
        lemma_plain_line_lexes_as_scan(front);
        assert(s.last() == s[s.len() - 1]);
        assert(front.push(s.last()) =~= s);
        lemma_lex_push(lex_start(), front, s.last());
        lemma_scan_push(front, s.last());
    }
}

} // verus!
