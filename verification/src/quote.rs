//! The quoting grammar of the helper's command line.
//!
//! The platform's process-creation primitive takes one joined command-line
//! string, not an argument vector, so the helper rebuilds a single string
//! from the target's path and arguments. Each piece is escaped on its own and
//! the pieces are joined with single spaces. The grammar has three forms: a
//! non-empty run of unremarkable characters stands bare; a piece without
//! single quotes stands between single quotes, verbatim; any other piece
//! stands between double quotes with a backslash before every character the
//! double-quoted form reserves. [`split_command_line`] is the model of the
//! receiving end's reader for exactly this grammar, and the round-trip law at
//! the end shows the escaping is lossless: reading the joined line yields the
//! original pieces, for every argument list.

use vstd::prelude::*;
use vstd::string::StrSliceExecFns;
use vstd::string::StringExecFns;

verus! {

/// Characters that may stand bare, outside any quotes: ASCII letters and
/// digits and a few path-like punctuation marks.
pub open spec fn is_bare_char(c: char) -> bool {
    (97 <= c as u32 && c as u32 <= 122) || (65 <= c as u32 && c as u32 <= 90) || (48 <= c as u32
        && c as u32 <= 57) || c == '.' || c == '/' || c == '_' || c == '-' || c == ','
}

/// Every character of `s` may stand bare.
pub open spec fn all_bare(s: Seq<char>) -> bool {
    forall|i: int| 0 <= i < s.len() ==> is_bare_char(#[trigger] s[i])
}

/// `s` contains the character `c`.
pub open spec fn has_char(s: Seq<char>, c: char) -> bool {
    exists|i: int| 0 <= i < s.len() && s[i] == c
}

/// Characters the double-quoted form reserves: they carry a backslash.
pub open spec fn needs_dquote_escape(c: char) -> bool {
    c == '"' || c == '\\' || c == '$' || c == '`'
}

/// The body of a double-quoted piece: every reserved character preceded by a
/// backslash, every other character verbatim.
pub open spec fn dquote_body(s: Seq<char>) -> Seq<char>
    decreases s.len(),
{
    if s.len() == 0 {
        s
    } else {
        dquote_body(s.drop_last()) + (if needs_dquote_escape(s.last()) {
            seq!['\\', s.last()]
        } else {
            seq![s.last()]
        })
    }
}

/// One piece of the command line, escaped: bare when it safely can be, single
/// quoted when it holds no single quote, double quoted with escapes
/// otherwise.
pub open spec fn escape_arg_spec(s: Seq<char>) -> Seq<char> {
    if s.len() > 0 && all_bare(s) {
        s
    } else if !has_char(s, '\'') {
        seq!['\''] + s + seq!['\'']
    } else {
        seq!['"'] + dquote_body(s) + seq!['"']
    }
}

/// The whole command line: each piece escaped, the pieces joined with single
/// spaces.
pub open spec fn command_line_spec(items: Seq<Seq<char>>) -> Seq<char>
    decreases items.len(),
{
    if items.len() == 0 {
        Seq::<char>::empty()
    } else if items.len() == 1 {
        escape_arg_spec(items[0])
    } else {
        command_line_spec(items.drop_last()) + seq![' '] + escape_arg_spec(items.last())
    }
}

/// Decides [`is_bare_char`].
fn bare_char(c: char) -> (r: bool)
    ensures
        r == is_bare_char(c),
{
    let u = c as u32;
    (97 <= u && u <= 122) || (65 <= u && u <= 90) || (48 <= u && u <= 57) || c == '.' || c == '/'
        || c == '_' || c == '-' || c == ','
}

/// Classifies a piece in one pass: whether every character may stand bare,
/// and whether it holds a single quote.
fn scan_arg(s: &str) -> (r: (bool, bool))
    ensures
        r.0 == all_bare(s@),
        r.1 == has_char(s@, '\''),
{
    let n = s.unicode_len();
    let mut bare = true;
    let mut squote = false;
    let mut i: usize = 0;
    while i < n
        invariant
            i <= n,
            n == s@.len(),
            bare == all_bare(s@.take(i as int)),
            squote == has_char(s@.take(i as int), '\''),
        decreases n - i,
    {
        let c = s.get_char(i);
        proof {
            assert(s@.take(i as int + 1).drop_last() =~= s@.take(i as int));
            assert(s@.take(i as int + 1).last() == s@[i as int]);
            assert forall|j: int| 0 <= j < i + 1 implies s@.take(i as int + 1)[j] == s@[j] by {}
        }
        if !bare_char(c) {
            bare = false;
        }
        if c == '\'' {
            squote = true;
        }
        proof {
            let t = s@.take(i as int + 1);
            if has_char(s@.take(i as int), '\'') {
                let j = choose|j: int| 0 <= j < i && s@.take(i as int)[j] == '\'';
                assert(t[j] == '\'');
            }
            if s@[i as int] == '\'' {
                assert(t[i as int] == '\'');
            }
            if !all_bare(s@.take(i as int)) {
                let j = choose|j: int|
                    0 <= j < i && !is_bare_char(#[trigger] s@.take(i as int)[j]);
                assert(!is_bare_char(t[j]));
            }
        }
        i = i + 1;
    }
    proof {
        assert(s@.take(n as int) =~= s@);
    }
    (bare, squote)
}

/// Escapes one piece of the command line; the result reads back as exactly
/// this piece.
pub fn escape_arg(s: &str) -> (r: String)
    ensures
        r@ == escape_arg_spec(s@),
{
    let n = s.unicode_len();
    let (bare, squote) = scan_arg(s);
    if n > 0 && bare {
        s.to_owned()
    } else if !squote {
        let mut r = String::new();
        r.append("'");
        r.append(s);
        r.append("'");
        proof {
            reveal_strlit("'");
            assert(r@ =~= seq!['\''] + s@ + seq!['\'']);
        }
        r
    } else {
        let mut r = String::new();
        r.append("\"");
        proof {
            reveal_strlit("\"");
            assert(r@ =~= seq!['"'] + dquote_body(s@.take(0)));
            assert(dquote_body(s@.take(0)) =~= Seq::<char>::empty());
        }
        let mut i: usize = 0;
        while i < n
            invariant
                i <= n,
                n == s@.len(),
                r@ == seq!['"'] + dquote_body(s@.take(i as int)),
            decreases n - i,
        {
            let c = s.get_char(i);
            let piece = s.substring_char(i, i + 1);
            proof {
                assert(piece@ =~= seq![s@[i as int]]);
                assert(s@.take(i as int + 1).drop_last() =~= s@.take(i as int));
                assert(s@.take(i as int + 1).last() == s@[i as int]);
            }
            if !(c == '"' || c == '\\' || c == '$' || c == '`') {
                r.append(piece);
                proof {
                    assert(!needs_dquote_escape(s@[i as int]));
                    assert(r@ =~= seq!['"'] + dquote_body(s@.take(i as int + 1)));
                }
            } else {
                r.append("\\");
                r.append(piece);
                proof {
                    reveal_strlit("\\");
                    assert(needs_dquote_escape(s@[i as int]));
                    assert(r@ =~= seq!['"'] + dquote_body(s@.take(i as int + 1)));
                }
            }
            i = i + 1;
        }
        r.append("\"");
        proof {
            reveal_strlit("\"");
            assert(s@.take(n as int) =~= s@);
            assert(r@ =~= seq!['"'] + dquote_body(s@) + seq!['"']);
        }
        r
    }
}

/// Joining one more piece appends one space and the escaped piece.
proof fn lemma_command_line_push(items: Seq<Seq<char>>, a: Seq<char>)
    requires
        items.len() > 0,
    ensures
        command_line_spec(items.push(a)) == command_line_spec(items) + seq![' ']
            + escape_arg_spec(a),
{
    assert(items.push(a).drop_last() =~= items);
    assert(items.push(a).last() == a);
}

/// Builds the command line that launches `path` with `args`: each piece
/// escaped, joined with single spaces, the path first.
pub fn build_command_line(path: &String, args: &Vec<String>) -> (r: String)
    ensures
        r@ == command_line_spec(seq![path@] + args.deep_view()),
{
    let mut r = escape_arg(path.as_str());
    let ghost all = seq![path@] + args.deep_view();
    proof {
        assert(all.take(1).len() == 1);
        assert(all.take(1)[0] == path@);
        assert(r@ == command_line_spec(all.take(1)));
    }
    let n = args.len();
    let mut i: usize = 0;
    while i < n
        invariant
            i <= n,
            n == args.len(),
            all == seq![path@] + args.deep_view(),
            r@ == command_line_spec(all.take(i as int + 1)),
        decreases n - i,
    {
        let piece = escape_arg(args[i].as_str());
        r.append(" ");
        r.append(piece.as_str());
        proof {
            reveal_strlit(" ");
            lemma_command_line_push(all.take(i as int + 1), args.deep_view()[i as int]);
            assert(all.take(i as int + 1).push(args.deep_view()[i as int]) =~= all.take(
                i as int + 2,
            ));
            assert(r@ =~= command_line_spec(all.take(i as int + 1)) + seq![' ']
                + escape_arg_spec(args.deep_view()[i as int]));
        }
        i = i + 1;
    }
    proof {
        assert(all.take(n as int + 1) =~= all);
    }
    r
}

/// The reader's quoting mode while scanning a command line.
#[derive(Clone, Copy, Debug, PartialEq, Eq)]
pub enum QuoteMode {
    /// Between tokens or inside a bare run.
    Unquoted,
    /// Inside a single-quoted run: everything up to the closing quote is
    /// literal.
    Single,
    /// Inside a double-quoted run.
    Double,
    /// Inside a double-quoted run, right after a backslash: the next
    /// character is literal.
    DoubleEscape,
}

/// The reader's state: the finished tokens, the token being gathered,
/// whether one is being gathered at all (a quote pair opens a token even
/// when it closes at once), and the quoting mode.
#[verifier::ext_equal]
pub ghost struct SplitState {
    /// Tokens already read, in order.
    pub tokens: Seq<Seq<char>>,
    /// The characters gathered for the token being read.
    pub current: Seq<char>,
    /// Whether a token is being read: a space then ends it.
    pub started: bool,
    /// The quoting mode.
    pub mode: QuoteMode,
}

/// Characters that stand for themselves outside quotes. Space separates,
/// the two quotes open quoted runs, and a bare backslash is not part of the
/// grammar: the writer never emits one.
pub open spec fn is_plain_char(c: char) -> bool {
    !(c == ' ' || c == '\'' || c == '"' || c == '\\')
}

/// One step of the reader: the state after `c`, or `None` where `c` cannot
/// occur in this state under the grammar.
pub open spec fn split_step(st: SplitState, c: char) -> Option<SplitState> {
    match st.mode {
        QuoteMode::Unquoted => {
            if c == ' ' {
                if st.started {
                    Some(
                        SplitState {
                            tokens: st.tokens.push(st.current),
                            current: Seq::<char>::empty(),
                            started: false,
                            mode: QuoteMode::Unquoted,
                        },
                    )
                } else {
                    Some(st)
                }
            } else if c == '\'' {
                Some(SplitState { started: true, mode: QuoteMode::Single, ..st })
            } else if c == '"' {
                Some(SplitState { started: true, mode: QuoteMode::Double, ..st })
            } else if c == '\\' {
                None
            } else {
                Some(SplitState { current: st.current.push(c), started: true, ..st })
            }
        },
        QuoteMode::Single => {
            if c == '\'' {
                Some(SplitState { mode: QuoteMode::Unquoted, ..st })
            } else {
                Some(SplitState { current: st.current.push(c), ..st })
            }
        },
        QuoteMode::Double => {
            if c == '"' {
                Some(SplitState { mode: QuoteMode::Unquoted, ..st })
            } else if c == '\\' {
                Some(SplitState { mode: QuoteMode::DoubleEscape, ..st })
            } else {
                Some(SplitState { current: st.current.push(c), ..st })
            }
        },
        QuoteMode::DoubleEscape => Some(
            SplitState { current: st.current.push(c), mode: QuoteMode::Double, ..st },
        ),
    }
}

/// The reader run over `s` from `st`, one character at a time.
pub open spec fn split_run(st: SplitState, s: Seq<char>) -> Option<SplitState>
    decreases s.len(),
{
    if s.len() == 0 {
        Some(st)
    } else {
        match split_step(st, s[0]) {
            Some(m) => split_run(m, s.drop_first()),
            None => None,
        }
    }
}

/// The reader's starting state: no tokens, nothing gathered.
pub open spec fn initial_split_state() -> SplitState {
    SplitState {
        tokens: Seq::<Seq<char>>::empty(),
        current: Seq::<char>::empty(),
        started: false,
        mode: QuoteMode::Unquoted,
    }
}

/// Reads a whole command line into its tokens: the model of the receiving
/// end's argument splitting for this grammar. `None` where the line is not
/// in the grammar (an unclosed quote, a bare backslash).
pub open spec fn split_command_line(s: Seq<char>) -> Option<Seq<Seq<char>>> {
    match split_run(initial_split_state(), s) {
        Some(st) => if st.mode is Unquoted {
            if st.started {
                Some(st.tokens.push(st.current))
            } else {
                Some(st.tokens)
            }
        } else {
            None
        },
        None => None,
    }
}

/// Running the reader over a concatenation runs it over the parts in turn.
proof fn lemma_split_run_append(st: SplitState, a: Seq<char>, b: Seq<char>)
    ensures
        split_run(st, a + b) == (match split_run(st, a) {
            Some(m) => split_run(m, b),
            None => None,
        }),
    decreases a.len(),
{
    if a.len() == 0 {
        assert(a + b =~= b);
    } else {
        assert((a + b)[0] == a[0]);
        assert((a + b).drop_first() =~= a.drop_first() + b);
        match split_step(st, a[0]) {
            Some(m) => {
                lemma_split_run_append(m, a.drop_first(), b);
            },
            None => {},
        }
    }
}

/// A run over a single character is one step.
proof fn lemma_split_run_one(st: SplitState, c: char)
    ensures
        split_run(st, seq![c]) == split_step(st, c),
{
    assert(seq![c][0] == c);
    assert(seq![c].drop_first() =~= Seq::<char>::empty());
    match split_step(st, c) {
        Some(m2) => {
            assert(split_run(m2, seq![c].drop_first()) == Some(m2));
        },
        None => {},
    }
}

/// Peeling the last character off a run.
proof fn lemma_split_run_push(st: SplitState, s: Seq<char>, c: char)
    ensures
        split_run(st, s.push(c)) == (match split_run(st, s) {
            Some(m) => split_step(m, c),
            None => None,
        }),
{
    assert(s.push(c) =~= s + seq![c]);
    lemma_split_run_append(st, s, seq![c]);
    match split_run(st, s) {
        Some(m) => {
            lemma_split_run_one(m, c);
        },
        None => {},
    }
}

/// A run of plain characters is gathered verbatim.
proof fn lemma_plain_run(st: SplitState, s: Seq<char>)
    requires
        st.mode is Unquoted,
        forall|i: int| 0 <= i < s.len() ==> is_plain_char(#[trigger] s[i]),
    ensures
        split_run(st, s) == Some(
            SplitState {
                current: st.current + s,
                started: st.started || s.len() > 0,
                ..st
            },
        ),
    decreases s.len(),
{
    if s.len() == 0 {
        assert((SplitState { current: st.current + s, started: st.started || s.len() > 0, ..st })
            =~= st);
    } else {
        lemma_plain_run(st, s.drop_last());
        lemma_split_run_push(st, s.drop_last(), s.last());
        assert(s.drop_last().push(s.last()) =~= s);
        let m = SplitState {
            current: st.current + s.drop_last(),
            started: st.started || s.drop_last().len() > 0,
            ..st
        };
        assert(split_step(m, s.last()) == Some(
            SplitState { current: m.current.push(s.last()), started: true, ..m },
        ));
        assert(m.current.push(s.last()) =~= st.current + s);
    }
}

/// A single-quoted body is gathered verbatim up to the closing quote.
proof fn lemma_single_run(st: SplitState, s: Seq<char>)
    requires
        st.mode is Single,
        !has_char(s, '\''),
    ensures
        split_run(st, s) == Some(SplitState { current: st.current + s, ..st }),
    decreases s.len(),
{
    if s.len() == 0 {
        assert((SplitState { current: st.current + s, ..st }) =~= st);
    } else {
        assert(!has_char(s.drop_last(), '\'')) by {
            if has_char(s.drop_last(), '\'') {
                let i = choose|i: int| 0 <= i < s.drop_last().len() && s.drop_last()[i] == '\'';
                assert(s[i] == '\'');
            }
        }
        assert(s.last() != '\'') by {
            if s.last() == '\'' {
                assert(s[s.len() - 1] == '\'');
            }
        }
        lemma_single_run(st, s.drop_last());
        lemma_split_run_push(st, s.drop_last(), s.last());
        assert(s.drop_last().push(s.last()) =~= s);
        let m = SplitState { current: st.current + s.drop_last(), ..st };
        assert(m.current.push(s.last()) =~= st.current + s);
    }
}

/// A double-quoted body, written with its escapes, is read back verbatim.
proof fn lemma_double_run(st: SplitState, s: Seq<char>)
    requires
        st.mode is Double,
    ensures
        split_run(st, dquote_body(s)) == Some(SplitState { current: st.current + s, ..st }),
    decreases s.len(),
{
    if s.len() == 0 {
        assert(dquote_body(s) == s);
        assert(split_run(st, dquote_body(s)) == Some(st));
        assert(st.current + s =~= st.current);
        assert((SplitState { current: st.current + s, ..st }) =~= st);
    } else {
        lemma_double_run(st, s.drop_last());
        let m = SplitState { current: st.current + s.drop_last(), ..st };
        let c = s.last();
        let piece: Seq<char> = if needs_dquote_escape(c) {
            seq!['\\', c]
        } else {
            seq![c]
        };
        assert(dquote_body(s) == dquote_body(s.drop_last()) + piece);
        lemma_split_run_append(st, dquote_body(s.drop_last()), piece);
        assert(split_run(st, dquote_body(s)) == split_run(m, piece));
        let m2 = SplitState { current: m.current.push(c), mode: QuoteMode::Double, ..m };
        if needs_dquote_escape(c) {
            let m1 = SplitState { mode: QuoteMode::DoubleEscape, ..m };
            assert(piece =~= seq!['\\'] + seq![c]);
            lemma_split_run_append(m, seq!['\\'], seq![c]);
            lemma_split_run_one(m, '\\');
            assert(split_step(m, '\\') == Some(m1));
            lemma_split_run_one(m1, c);
            assert(split_step(m1, c) == Some(m2));
            assert(split_run(m, piece) == Some(m2));
        } else {
            lemma_split_run_one(m, c);
            assert(c != '"' && c != '\\');
            assert(split_step(m, c) == Some(m2));
            assert(split_run(m, piece) == Some(m2));
        }
        assert(m2.current =~= st.current + s);
        assert(m2 =~= (SplitState { current: st.current + s, ..st }));
    }
}

/// Every bare character is plain.
proof fn lemma_bare_is_plain()
    ensures
        forall|c: char| is_bare_char(c) ==> is_plain_char(c),
{
}

/// Reading one escaped piece from between tokens gathers exactly that piece.
proof fn lemma_escape_token(st: SplitState, s: Seq<char>)
    requires
        st.mode is Unquoted,
        !st.started,
        st.current == Seq::<char>::empty(),
    ensures
        split_run(st, escape_arg_spec(s)) == Some(
            SplitState { current: s, started: true, mode: QuoteMode::Unquoted, ..st },
        ),
{
    let target = SplitState { current: s, started: true, mode: QuoteMode::Unquoted, ..st };
    if s.len() > 0 && all_bare(s) {
        lemma_bare_is_plain();
        lemma_plain_run(st, s);
        assert(st.current + s =~= s);
        assert((SplitState { current: st.current + s, started: st.started || s.len() > 0, ..st })
            =~= target);
    } else if !has_char(s, '\'') {
        let e = escape_arg_spec(s);
        assert(e == seq!['\''] + s + seq!['\'']);
        let m1 = SplitState { started: true, mode: QuoteMode::Single, ..st };
        assert(e.len() > 0);
        assert(e[0] == '\'');
        assert(split_step(st, '\'') == Some(m1));
        assert(e.drop_first() =~= s + seq!['\'']);
        assert(split_run(st, e) == split_run(m1, s + seq!['\'']));
        lemma_split_run_append(m1, s, seq!['\'']);
        lemma_single_run(m1, s);
        let m2 = SplitState { current: m1.current + s, ..m1 };
        lemma_split_run_one(m2, '\'');
        let m3 = SplitState { mode: QuoteMode::Unquoted, ..m2 };
        assert(split_step(m2, '\'') == Some(m3));
        assert(split_run(st, e) == Some(m3));
        assert(m3.current =~= s);
        assert(m3 =~= target);
    } else {
        let e = escape_arg_spec(s);
        assert(e == seq!['"'] + dquote_body(s) + seq!['"']);
        let m1 = SplitState { started: true, mode: QuoteMode::Double, ..st };
        assert(e.len() >= 2);
        assert(e[0] == '"');
        assert(split_step(st, '"') == Some(m1));
        assert(e.drop_first() =~= dquote_body(s) + seq!['"']);
        assert(split_run(st, e) == split_run(m1, dquote_body(s) + seq!['"']));
        lemma_split_run_append(m1, dquote_body(s), seq!['"']);
        lemma_double_run(m1, s);
        let m2 = SplitState { current: m1.current + s, ..m1 };
        lemma_split_run_one(m2, '"');
        let m3 = SplitState { mode: QuoteMode::Unquoted, ..m2 };
        assert(split_step(m2, '"') == Some(m3));
        assert(split_run(st, e) == Some(m3));
        assert(m3.current =~= s);
        assert(m3 =~= target);
    }
}

/// Reading a whole joined command line leaves its last piece in hand and the
/// earlier pieces finished, in order.
proof fn lemma_command_line_tokens(items: Seq<Seq<char>>)
    requires
        items.len() > 0,
    ensures
        split_run(initial_split_state(), command_line_spec(items)) == Some(
            SplitState {
                tokens: items.drop_last(),
                current: items.last(),
                started: true,
                mode: QuoteMode::Unquoted,
            },
        ),
    decreases items.len(),
{
    let init = initial_split_state();
    if items.len() == 1 {
        lemma_escape_token(init, items[0]);
        assert((SplitState { current: items[0], started: true, mode: QuoteMode::Unquoted, ..init })
            =~= (SplitState {
            tokens: items.drop_last(),
            current: items.last(),
            started: true,
            mode: QuoteMode::Unquoted,
        })) by {
            assert(items.drop_last() =~= Seq::<Seq<char>>::empty());
        }
    } else {
        let front = items.drop_last();
        lemma_command_line_tokens(front);
        let sep = seq![' '] + escape_arg_spec(items.last());
        let cl = command_line_spec(items);
        assert(cl == command_line_spec(front) + seq![' '] + escape_arg_spec(items.last()));
        assert(cl =~= command_line_spec(front) + sep);
        lemma_split_run_append(init, command_line_spec(front), sep);
        let m1 = SplitState {
            tokens: front.drop_last(),
            current: front.last(),
            started: true,
            mode: QuoteMode::Unquoted,
        };
        assert(split_run(init, cl) == split_run(m1, sep));
        assert(sep.len() > 0);
        assert(sep[0] == ' ');
        let m2 = SplitState {
            tokens: m1.tokens.push(m1.current),
            current: Seq::<char>::empty(),
            started: false,
            mode: QuoteMode::Unquoted,
        };
        assert(split_step(m1, ' ') == Some(m2));
        assert(sep.drop_first() =~= escape_arg_spec(items.last()));
        assert(split_run(m1, sep) == split_run(m2, escape_arg_spec(items.last())));
        lemma_escape_token(m2, items.last());
        assert((SplitState {
            current: items.last(),
            started: true,
            mode: QuoteMode::Unquoted,
            ..m2
        }) =~= (SplitState {
            tokens: items.drop_last(),
            current: items.last(),
            started: true,
            mode: QuoteMode::Unquoted,
        })) by {
            assert(front.drop_last().push(front.last()) =~= front);
        }
    }
}

/// Reads a command line into its tokens, the runnable counterpart of
/// [`split_command_line`]: `None` where the line is not in the grammar.
pub fn read_command_line(s: &str) -> (r: Option<Vec<String>>)
    ensures
        match r {
            Some(v) => split_command_line(s@) == Some(v.deep_view()),
            None => split_command_line(s@) is None,
        },
{
    let n = s.unicode_len();
    let mut tokens: Vec<String> = Vec::new();
    let mut current = String::new();
    let mut started = false;
    let mut mode = QuoteMode::Unquoted;
    let mut i: usize = 0;
    proof {
        assert(s@.take(0) =~= Seq::<char>::empty());
        assert(tokens.deep_view() =~= Seq::<Seq<char>>::empty());
    }
    while i < n
        invariant
            i <= n,
            n == s@.len(),
            split_run(initial_split_state(), s@.take(i as int)) == Some(
                SplitState {
                    tokens: tokens.deep_view(),
                    current: current@,
                    started: started,
                    mode: mode,
                },
            ),
        decreases n - i,
    {
        let ghost st = SplitState {
            tokens: tokens.deep_view(),
            current: current@,
            started: started,
            mode: mode,
        };
        let c = s.get_char(i);
        proof {
            lemma_split_run_push(initial_split_state(), s@.take(i as int), c);
            assert(s@.take(i as int).push(c) =~= s@.take(i as int + 1));
        }
        match mode {
            QuoteMode::Unquoted => {
                if c == ' ' {
                    if started {
                        tokens.push(current);
                        current = String::new();
                        started = false;
                        proof {
                            assert(tokens.deep_view() =~= st.tokens.push(st.current));
                        }
                    }
                } else if c == '\'' {
                    started = true;
                    mode = QuoteMode::Single;
                } else if c == '"' {
                    started = true;
                    mode = QuoteMode::Double;
                } else if c == '\\' {
                    proof {
                        lemma_split_run_append(
                            initial_split_state(),
                            s@.take(i as int),
                            s@.skip(i as int),
                        );
                        assert(s@.take(i as int) + s@.skip(i as int) =~= s@);
                        assert(s@.skip(i as int).len() > 0);
                        assert(s@.skip(i as int)[0] == c);
                        assert(split_run(st, s@.skip(i as int)) is None);
                    }
                    return None;
                } else {
                    let piece = s.substring_char(i, i + 1);
                    current.append(piece);
                    started = true;
                    proof {
                        assert(piece@ =~= seq![c]);
                        assert(current@ =~= st.current.push(c));
                    }
                }
            },
            QuoteMode::Single => {
                if c == '\'' {
                    mode = QuoteMode::Unquoted;
                } else {
                    let piece = s.substring_char(i, i + 1);
                    current.append(piece);
                    proof {
                        assert(piece@ =~= seq![c]);
                        assert(current@ =~= st.current.push(c));
                    }
                }
            },
            QuoteMode::Double => {
                if c == '"' {
                    mode = QuoteMode::Unquoted;
                } else if c == '\\' {
                    mode = QuoteMode::DoubleEscape;
                } else {
                    let piece = s.substring_char(i, i + 1);
                    current.append(piece);
                    proof {
                        assert(piece@ =~= seq![c]);
                        assert(current@ =~= st.current.push(c));
                    }
                }
            },
            QuoteMode::DoubleEscape => {
                let piece = s.substring_char(i, i + 1);
                current.append(piece);
                mode = QuoteMode::Double;
                proof {
                    assert(piece@ =~= seq![c]);
                    assert(current@ =~= st.current.push(c));
                }
            },
        }
        i = i + 1;
    }
    proof {
        assert(s@.take(n as int) =~= s@);
    }
    match mode {
        QuoteMode::Unquoted => {
            if started {
                tokens.push(current);
                proof {
                    assert(tokens.deep_view() =~= split_run(
                        initial_split_state(),
                        s@,
                    ).unwrap().tokens.push(split_run(initial_split_state(), s@).unwrap().current));
                }
            }
            Some(tokens)
        },
        _ => None,
    }
}

/// Law (argument round-trip): for every argument list — spaces, quotes and
/// empty strings included — reading the joined, escaped command line back
/// under the grammar yields exactly the original list. The escaping loses
/// nothing.
pub proof fn lemma_command_line_round_trip(items: Seq<Seq<char>>)
    ensures
        split_command_line(command_line_spec(items)) == Some(items),
{
    if items.len() == 0 {
        assert(command_line_spec(items) =~= Seq::<char>::empty());
        assert(split_run(initial_split_state(), Seq::<char>::empty()) == Some(
            initial_split_state(),
        ));
        assert(initial_split_state().tokens =~= items);
    } else {
        lemma_command_line_tokens(items);
        assert(items.drop_last().push(items.last()) =~= items);
    }
}

} // verus!
