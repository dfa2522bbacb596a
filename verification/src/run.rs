//! The pure side of running ffmpeg: the argument vectors handed to the
//! process, splitting an edited command line into argv tokens, and the
//! summaries shown when a run fails. Spawning the process, reading its
//! progress pipe and waiting on it happen around the library.

use vstd::prelude::*;
use crate::args::ffmpeg_args;
use crate::model::{Project, ProjectView};
use crate::text::{
    all_ws, ascii_ci_eq, chars_of, dec, eq_ignore_ascii_case, ends_with, fmt_u64, has_suffix,
    is_blank, is_whitespace, is_ws, join, join_strings, push_char, str_lowercase, string_from_chars,
    string_of, str_eq, to_lowercase, trim, trim_spec,
};

verus! {

/// The tokenizer's state after some prefix of the input.
pub struct TokState {
    /// Tokens completed so far.
    pub out: Seq<Seq<char>>,
    /// The token being built.
    pub cur: Seq<char>,
    /// Whether a token is open (even an empty one started by `""`).
    pub in_token: bool,
    /// The quote character of an open quoted section.
    pub quote: Option<char>,
}

pub open spec fn tok_start() -> TokState {
    TokState { out: Seq::empty(), cur: Seq::empty(), in_token: false, quote: None }
}

/// One character of input. Inside quotes everything but the closing quote
/// is literal; outside, a quote opens a section (and a token), whitespace
/// ends an open token, and anything else, backslashes included, is kept.
pub open spec fn tok_step(st: TokState, c: char) -> TokState {
    match st.quote {
        Some(q) => if c == q {
            TokState { quote: None, ..st }
        } else {
            TokState { cur: st.cur.push(c), ..st }
        },
        None => if c == '"' || c == '\'' {
            TokState { quote: Some(c), in_token: true, ..st }
        } else if is_ws(c) {
            if st.in_token {
                TokState { out: st.out.push(st.cur), cur: Seq::empty(), in_token: false, ..st }
            } else {
                st
            }
        } else {
            TokState { cur: st.cur.push(c), in_token: true, ..st }
        },
    }
}

/// The state after feeding `s` to a tokenizer in state `st`.
pub open spec fn tok_from(st: TokState, s: Seq<char>) -> TokState
    decreases s.len(),
{
    if s.len() == 0 {
        st
    } else {
        tok_step(tok_from(st, s.drop_last()), s.last())
    }
}

/// The argv tokens of a command line.
pub open spec fn tokens(s: Seq<char>) -> Seq<Seq<char>> {
    let st = tok_from(tok_start(), s);
    if st.in_token {
        st.out.push(st.cur)
    } else {
        st.out
    }
}

/// Split a command line into argv tokens, honoring `'…'` and `"…"` quoting
/// so a path with spaces stays one token. Backslashes are literal (Windows
/// paths are the common case); an empty quoted string gives an empty token.
pub fn tokenize(input: &str) -> (r: Vec<String>)
    ensures
        r.deep_view() == tokens(input@),
{
    let v = chars_of(input);
    let mut out: Vec<String> = Vec::new();
    let mut cur = String::new();
    let mut in_token = false;
    let mut quote: Option<char> = None;
    let mut i: usize = 0;
    while i < v.len()
        invariant
            v@ == input@,
            i <= v.len(),
            ({
                let st = tok_from(tok_start(), v@.take(i as int));
                &&& out.deep_view() == st.out
                &&& cur@ == st.cur
                &&& in_token == st.in_token
                &&& quote == st.quote
            }),
        decreases v.len() - i,
    {
        let c = v[i];
        assert(v@.take(i + 1).drop_last() =~= v@.take(i as int));
        match quote {
            Some(q) => {
                if c == q {
                    quote = None;
                } else {
                    push_char(&mut cur, c);
                }
            },
            None => {
                if c == '"' || c == '\'' {
                    quote = Some(c);
                    in_token = true;
                } else if is_whitespace(c) {
                    if in_token {
                        let ghost before = out.deep_view();
                        let ghost token = cur@;
                        out.push(cur);
                        assert(out.deep_view() =~= before.push(token));
                        cur = String::new();
                        in_token = false;
                    }
                } else {
                    push_char(&mut cur, c);
                    in_token = true;
                }
            },
        }
        i = i + 1;
    }
    assert(v@.take(v.len() as int) =~= v@);
    if in_token {
        let ghost before = out.deep_view();
        let ghost token = cur@;
        out.push(cur);
        assert(out.deep_view() =~= before.push(token));
    }
    out
}

/// A token the tokenizer reads back unchanged when written between single
/// spaces: non-empty, with no whitespace and no quote character.
pub open spec fn plain_token(t: Seq<char>) -> bool {
    t.len() > 0 && forall|i: int|
        0 <= i < t.len() ==> !is_ws(#[trigger] t[i]) && t[i] != '"' && t[i] != '\''
}

proof fn lemma_tok_from_append(st: TokState, a: Seq<char>, b: Seq<char>)
    ensures
        tok_from(st, a + b) == tok_from(tok_from(st, a), b),
    decreases b.len(),
{
    if b.len() == 0 {
        assert(a + b =~= a);
    } else {
        assert((a + b).drop_last() =~= a + b.drop_last());
        assert((a + b).last() == b.last());
        lemma_tok_from_append(st, a, b.drop_last());
    }
}

proof fn lemma_tok_word(out: Seq<Seq<char>>, cur: Seq<char>, in_token: bool, w: Seq<char>)
    requires
        forall|i: int|
            0 <= i < w.len() ==> !is_ws(#[trigger] w[i]) && w[i] != '"' && w[i] != '\'',
        in_token || cur.len() == 0,
    ensures
        tok_from(TokState { out, cur, in_token, quote: None }, w) == (TokState {
            out,
            cur: cur + w,
            in_token: in_token || w.len() > 0,
            quote: None,
        }),
    decreases w.len(),
{
    if w.len() == 0 {
        assert(cur + w =~= cur);
    } else {
        let q = w.drop_last();
        lemma_tok_word(out, cur, in_token, q);
        assert(w[w.len() - 1] == w.last());
        assert(cur + q.push(w.last()) =~= cur + w);
        assert(q.push(w.last()) =~= w);
    }
}

/// Joining plain tokens with single spaces leaves the tokenizer with every
/// token but the last completed and the last one open.
proof fn lemma_tok_join(ts: Seq<Seq<char>>)
    requires
        ts.len() > 0,
        forall|i: int| 0 <= i < ts.len() ==> plain_token(#[trigger] ts[i]),
    ensures
        tok_from(tok_start(), join(ts, " "@)) == (TokState {
            out: ts.drop_last(),
            cur: ts.last(),
            in_token: true,
            quote: None,
        }),
    decreases ts.len(),
{
    reveal_strlit(" ");
    let last = ts.last();
    assert(plain_token(ts[ts.len() - 1]));
    if ts.len() == 1 {
        lemma_tok_word(Seq::empty(), Seq::empty(), false, last);
        assert(Seq::<char>::empty() + last =~= last);
        assert(ts.drop_last() =~= Seq::<Seq<char>>::empty());
    } else {
        let q = ts.drop_last();
        assert forall|i: int| 0 <= i < q.len() implies plain_token(#[trigger] q[i]) by {
            assert(q[i] == ts[i]);
        }
        lemma_tok_join(q);
        let j = join(q, " "@);
        lemma_tok_from_append(tok_start(), j + " "@, last);
        lemma_tok_from_append(tok_start(), j, " "@);
        let st1 = tok_from(tok_start(), j);
        assert(" "@ =~= seq![' ']);
        assert(seq![' '].drop_last() =~= Seq::<char>::empty());
        assert(is_ws(' '));
        assert(tok_from(st1, " "@.drop_last()) == st1);
        assert(" "@.last() == ' ');
        let st2 = tok_from(st1, " "@);
        assert(st2 == (TokState {
            out: q.drop_last().push(q.last()),
            cur: Seq::empty(),
            in_token: false,
            quote: None,
        }));
        assert(q.drop_last().push(q.last()) =~= q);
        lemma_tok_word(q, Seq::empty(), false, last);
        assert(Seq::<char>::empty() + last =~= last);
    }
}

/// Tokenizing undoes joining: plain tokens written out separated by single
/// spaces are read back exactly.
pub proof fn lemma_tokenize_join(ts: Seq<Seq<char>>)
    requires
        forall|i: int| 0 <= i < ts.len() ==> plain_token(#[trigger] ts[i]),
    ensures
        tokens(join(ts, " "@)) == ts,
{
    if ts.len() == 0 {
        assert(tokens(Seq::<char>::empty()) == Seq::<Seq<char>>::empty());
    } else {
        lemma_tok_join(ts);
        assert(ts.drop_last().push(ts.last()) =~= ts);
    }
}

/// No quote character of either kind in `s`.
pub open spec fn quote_free(s: Seq<char>) -> bool {
    forall|i: int| 0 <= i < s.len() ==> #[trigger] s[i] != '"' && s[i] != '\''
}

/// The length of the run of non-whitespace characters that starts `s`.
pub open spec fn word_len(s: Seq<char>) -> int
    decreases s.len(),
{
    if s.len() == 0 || is_ws(s[0]) {
        0
    } else {
        1 + word_len(s.skip(1))
    }
}

/// `str::split_whitespace`: the maximal runs of non-whitespace characters of
/// `s`, in order.
pub open spec fn split_ws(s: Seq<char>) -> Seq<Seq<char>>
    decreases s.len(),
{
    if s.len() == 0 {
        Seq::empty()
    } else if is_ws(s[0]) {
        split_ws(s.skip(1))
    } else {
        proof {
            lemma_word_len_bounds(s);
        }
        seq![s.take(word_len(s))] + split_ws(s.skip(word_len(s)))
    }
}

/// A leading word lies within the text, and is non-empty when the text
/// starts with a non-whitespace character.
pub proof fn lemma_word_len_bounds(s: Seq<char>)
    ensures
        0 <= word_len(s) <= s.len(),
        s.len() > 0 && !is_ws(s[0]) ==> word_len(s) >= 1,
    decreases s.len(),
{
    if s.len() > 0 && !is_ws(s[0]) {
        lemma_word_len_bounds(s.skip(1));
    }
}

/// What the tokenizer has produced once it has finished reading.
pub open spec fn tok_finish(st: TokState) -> Seq<Seq<char>> {
    if st.in_token {
        st.out.push(st.cur)
    } else {
        st.out
    }
}

proof fn lemma_tok_front(st: TokState, c: char, rest: Seq<char>)
    ensures
        tok_from(st, seq![c] + rest) == tok_from(tok_step(st, c), rest),
{
    lemma_tok_from_append(st, seq![c], rest);
    assert(seq![c].drop_last() =~= Seq::<char>::empty());
    assert(seq![c].last() == c);
    assert(tok_from(st, Seq::<char>::empty()) == st);
    assert(tok_from(st, seq![c]) == tok_step(tok_from(st, seq![c].drop_last()), seq![c].last()));
}

/// Reading quote-free text from a state outside quotes: the open token (if
/// any) takes the leading run of non-whitespace, and the rest splits at
/// whitespace.
proof fn lemma_tok_quote_free(st: TokState, s: Seq<char>)
    requires
        st.quote is None,
        st.in_token || st.cur.len() == 0,
        quote_free(s),
    ensures
        st.in_token ==> tok_finish(tok_from(st, s)) == st.out.push(st.cur + s.take(word_len(s)))
            + split_ws(s.skip(word_len(s))),
        !st.in_token ==> tok_finish(tok_from(st, s)) == st.out + split_ws(s),
    decreases s.len(),
{
    lemma_word_len_bounds(s);
    if s.len() == 0 {
        assert(s.take(0) =~= Seq::<char>::empty());
        assert(s.skip(0) =~= s);
        assert(st.cur + Seq::<char>::empty() =~= st.cur);
        assert(st.out.push(st.cur) + Seq::<Seq<char>>::empty() =~= st.out.push(st.cur));
        assert(st.out + Seq::<Seq<char>>::empty() =~= st.out);
    } else {
        let c = s[0];
        let rest = s.skip(1);
        assert(s =~= seq![c] + rest);
        assert(quote_free(rest)) by {
            assert forall|i: int| 0 <= i < rest.len() implies #[trigger] rest[i] != '"' && rest[i]
                != '\'' by {
                assert(rest[i] == s[i + 1]);
            }
        }
        assert(c != '"' && c != '\'');
        lemma_tok_front(st, c, rest);
        let st1 = tok_step(st, c);
        lemma_tok_quote_free(st1, rest);
        lemma_word_len_bounds(rest);
        if is_ws(c) {
            assert(word_len(s) == 0);
            assert(s.take(0) =~= Seq::<char>::empty());
            assert(s.skip(0) =~= s);
            assert(split_ws(s) == split_ws(rest));
            if st.in_token {
                assert(st.cur + Seq::<char>::empty() =~= st.cur);
            }
        } else {
            let k = word_len(rest);
            assert(word_len(s) == 1 + k);
            assert(s.take(1 + k) =~= seq![c] + rest.take(k));
            assert(s.skip(1 + k) =~= rest.skip(k));
            if st.in_token {
                assert(st.cur.push(c) + rest.take(k) =~= st.cur + s.take(1 + k));
            } else {
                assert(st.cur =~= Seq::<char>::empty());
                assert(st1.cur =~= seq![c]);
                assert(st1.in_token);
                assert(tok_finish(tok_from(st1, rest)) == st.out.push(seq![c] + rest.take(k)) + split_ws(
                    rest.skip(k),
                ));
                assert(seq![c] + rest.take(k) =~= s.take(1 + k));
                assert(split_ws(s) == seq![s.take(1 + k)] + split_ws(s.skip(1 + k)));
                assert(st.out.push(s.take(1 + k)) + split_ws(rest.skip(k)) =~= st.out + (seq![
                    s.take(1 + k),
                ] + split_ws(rest.skip(k))));
            }
        }
    }
}

/// Without quote characters, tokenizing is splitting at whitespace: no
/// token is empty or holds whitespace, and blank input gives no tokens.
pub proof fn lemma_tokenize_quote_free(s: Seq<char>)
    requires
        quote_free(s),
    ensures
        tokens(s) == split_ws(s),
{
    lemma_tok_quote_free(tok_start(), s);
    assert(Seq::<Seq<char>>::empty() + split_ws(s) =~= split_ws(s));
}

/// `t` between double quotes.
pub open spec fn quoted(t: Seq<char>) -> Seq<char> {
    seq!['"'] + t + seq!['"']
}

/// No double quote in `t`.
pub open spec fn no_double_quote(t: Seq<char>) -> bool {
    forall|i: int| 0 <= i < t.len() ==> #[trigger] t[i] != '"'
}

proof fn lemma_tok_in_quotes(st: TokState, w: Seq<char>)
    requires
        st.quote == Some('"'),
        no_double_quote(w),
    ensures
        tok_from(st, w) == (TokState { cur: st.cur + w, ..st }),
    decreases w.len(),
{
    if w.len() == 0 {
        assert(st.cur + w =~= st.cur);
    } else {
        let q = w.drop_last();
        lemma_tok_in_quotes(st, q);
        assert(w[w.len() - 1] == w.last());
        assert(st.cur + q.push(w.last()) =~= st.cur + w);
    }
}

proof fn lemma_tok_quoted(out: Seq<Seq<char>>, t: Seq<char>)
    requires
        no_double_quote(t),
    ensures
        tok_from(TokState { out, cur: Seq::empty(), in_token: false, quote: None }, quoted(t)) == (
        TokState { out, cur: t, in_token: true, quote: None }),
{
    let st0 = TokState { out, cur: Seq::empty(), in_token: false, quote: None };
    assert(quoted(t) =~= seq!['"'] + (t + seq!['"']));
    lemma_tok_front(st0, '"', t + seq!['"']);
    let st1 = tok_step(st0, '"');
    assert(st1 == TokState { quote: Some('"'), in_token: true, ..st0 });
    lemma_tok_from_append(st1, t, seq!['"']);
    lemma_tok_in_quotes(st1, t);
    assert(Seq::<char>::empty() + t =~= t);
    let st2 = tok_from(st1, t);
    assert(st2 == TokState { cur: t, ..st1 });
    lemma_tok_front(st2, '"', Seq::empty());
    assert(seq!['"'] + Seq::<char>::empty() =~= seq!['"']);
    assert(tok_from(tok_step(st2, '"'), Seq::<char>::empty()) == tok_step(st2, '"'));
    assert(tok_from(st2, seq!['"']) == tok_step(st2, '"'));
    assert(tok_from(st0, quoted(t)) == tok_from(st2, seq!['"']));
}

/// Every token of `ts` between double quotes.
pub open spec fn quote_all(ts: Seq<Seq<char>>) -> Seq<Seq<char>> {
    ts.map_values(|t: Seq<char>| quoted(t))
}

proof fn lemma_tok_join_quoted(ts: Seq<Seq<char>>)
    requires
        ts.len() > 0,
        forall|i: int| 0 <= i < ts.len() ==> no_double_quote(#[trigger] ts[i]),
    ensures
        tok_from(tok_start(), join(quote_all(ts), " "@)) == (TokState {
            out: ts.drop_last(),
            cur: ts.last(),
            in_token: true,
            quote: None,
        }),
    decreases ts.len(),
{
    reveal_strlit(" ");
    let qs = quote_all(ts);
    assert(no_double_quote(ts[ts.len() - 1]));
    if ts.len() == 1 {
        assert(join(qs, " "@) == quoted(ts[0]));
        lemma_tok_quoted(Seq::empty(), ts[0]);
        assert(ts.drop_last() =~= Seq::<Seq<char>>::empty());
    } else {
        let q = ts.drop_last();
        assert forall|i: int| 0 <= i < q.len() implies no_double_quote(#[trigger] q[i]) by {
            assert(q[i] == ts[i]);
        }
        lemma_tok_join_quoted(q);
        assert(qs.drop_last() =~= quote_all(q));
        assert(qs.last() == quoted(ts.last()));
        let j = join(quote_all(q), " "@);
        assert(join(qs, " "@) == j + " "@ + quoted(ts.last()));
        lemma_tok_from_append(tok_start(), j + " "@, quoted(ts.last()));
        lemma_tok_from_append(tok_start(), j, " "@);
        let st1 = tok_from(tok_start(), j);
        assert(" "@ =~= seq![' ']);
        assert(seq![' '].drop_last() =~= Seq::<char>::empty());
        assert(is_ws(' '));
        assert(tok_from(st1, " "@.drop_last()) == st1);
        assert(" "@.last() == ' ');
        assert(q.drop_last().push(q.last()) =~= q);
        lemma_tok_quoted(q, ts.last());
    }
}

/// Double-quoting every token and joining them with single spaces reads
/// back exactly, whatever the tokens hold (spaces, single quotes,
/// backslashes, or nothing) as long as it is not a double quote.
pub proof fn lemma_tokenize_quoted_join(ts: Seq<Seq<char>>)
    requires
        forall|i: int| 0 <= i < ts.len() ==> no_double_quote(#[trigger] ts[i]),
    ensures
        tokens(join(quote_all(ts), " "@)) == ts,
{
    if ts.len() == 0 {
        assert(quote_all(ts).len() == 0);
        assert(tokens(Seq::<char>::empty()) == Seq::<Seq<char>>::empty());
    } else {
        lemma_tok_join_quoted(ts);
        assert(ts.drop_last().push(ts.last()) =~= ts);
    }
}

/// A leading program token the edited command may start with: `ffmpeg` in
/// any ASCII case, or anything whose lowercase ends in `ffmpeg.exe`.
pub open spec fn is_program_token(t: Seq<char>) -> bool {
    ascii_ci_eq(t, "ffmpeg"@) || has_suffix(str_lowercase(t), "ffmpeg.exe"@)
}

/// The arguments of an edited command line: its tokens, minus a leading
/// program token.
pub open spec fn command_args_spec(command: Seq<char>) -> Seq<Seq<char>> {
    let t = tokens(command);
    if t.len() > 0 && is_program_token(t[0]) {
        t.skip(1)
    } else {
        t
    }
}

/// Whether a first token is a program name, given the token and its
/// lowercase form: `ffmpeg` in any ASCII case, or a lowercase form ending in
/// `ffmpeg.exe`.
pub fn is_program_token_of(first: &str, first_lower: &str) -> (r: bool)
    ensures
        r == (ascii_ci_eq(first@, "ffmpeg"@) || has_suffix(first_lower@, "ffmpeg.exe"@)),
{
    eq_ignore_ascii_case(first, "ffmpeg") || ends_with(first_lower, "ffmpeg.exe")
}

/// Turn an edited command line into ffmpeg's argv: tokenize, then drop a
/// leading `ffmpeg` / `…ffmpeg.exe` program token so the configured binary
/// stays in charge.
pub fn command_args(command: &str) -> (r: Vec<String>)
    ensures
        r.deep_view() == command_args_spec(command@),
{
    let mut args = tokenize(command);
    if args.len() > 0 {
        let first = args[0].as_str();
        assert(args.deep_view()[0] == args[0]@);
        let lower = to_lowercase(first);
        let lead = is_program_token_of(first, lower.as_str());
        if lead {
            let ghost before = args.deep_view();
            args.remove(0);
            assert(args.deep_view() =~= before.skip(1));
        }
    }
    args
}

/// The command line shown in the command bar: `ffmpeg` and the project's
/// arguments, separated by single spaces.
pub open spec fn command_line_spec(p: ProjectView) -> Seq<char> {
    "ffmpeg "@ + join(ffmpeg_args(p), " "@)
}

impl Project {
    /// The command line the command bar shows for this project.
    pub fn command_line(&self) -> (r: String)
        ensures
            r@ == command_line_spec(self@),
    {
        let args = self.to_args();
        let joined = join_strings(&args, " ");
        let mut r = string_of("ffmpeg ");
        r.append(joined.as_str());
        r
    }
}

/// Running the command bar's text unedited passes ffmpeg exactly the
/// arguments the model renders, whenever every argument is a plain token
/// (no whitespace or quotes in paths and tags) and the first one is not
/// itself a program name.
pub proof fn lemma_command_line_round_trip(args: Seq<Seq<char>>)
    requires
        forall|i: int| 0 <= i < args.len() ==> plain_token(#[trigger] args[i]),
        args.len() == 0 || !is_program_token(args[0]),
    ensures
        command_args_spec("ffmpeg "@ + join(args, " "@)) == args,
{
    reveal_strlit("ffmpeg ");
    reveal_strlit("ffmpeg");
    reveal_strlit(" ");
    let all = seq!["ffmpeg"@].add(args);
    assert forall|i: int| 0 <= i < all.len() implies plain_token(#[trigger] all[i]) by {
        if i > 0 {
            assert(all[i] == args[i - 1]);
        } else {
            assert(all[0] == "ffmpeg"@);
            assert(is_ws('f') == false);
        }
    }
    assert("ffmpeg "@ =~= "ffmpeg"@ + " "@);
    assert(all[0] == "ffmpeg"@);
    assert(ascii_ci_eq("ffmpeg"@, "ffmpeg"@));
    if args.len() > 0 {
        lemma_join_cons("ffmpeg"@, args);
        assert("ffmpeg "@ + join(args, " "@) =~= "ffmpeg"@ + " "@ + join(args, " "@));
        lemma_tokenize_join(all);
        assert(all.skip(1) =~= args);
    } else {
        lemma_tok_join(all);
        assert(join(args, " "@) =~= Seq::<char>::empty());
        assert("ffmpeg "@ + join(args, " "@) =~= join(all, " "@) + " "@);
        lemma_tok_from_append(tok_start(), join(all, " "@), " "@);
        let st1 = tok_from(tok_start(), join(all, " "@));
        assert(tok_from(st1, " "@.drop_last()) == st1);
        assert(" "@.last() == ' ');
        assert(all.drop_last().push(all.last()) =~= all);
        assert(tokens("ffmpeg "@ + join(args, " "@)) == all);
        assert(all.skip(1) =~= args);
    }
}

/// `join(x :: rest) == x + " " + join(rest)` for a non-empty rest.
proof fn lemma_join_cons(x: Seq<char>, rest: Seq<Seq<char>>)
    requires
        rest.len() > 0,
    ensures
        join(seq![x].add(rest), " "@) == x + " "@ + join(rest, " "@),
    decreases rest.len(),
{
    let all = seq![x].add(rest);
    assert(join(seq![x], " "@) == x);
    if rest.len() == 1 {
        assert(all.drop_last() =~= seq![x]);
        assert(all.last() == rest[0]);
        assert(join(rest, " "@) == rest[0]);
    } else {
        let q = rest.drop_last();
        lemma_join_cons(x, q);
        assert(all.drop_last() =~= seq![x].add(q));
        assert(all.last() == rest.last());
        assert(join(rest, " "@) == join(q, " "@) + " "@ + rest.last());
        assert(join(all, " "@) == join(seq![x].add(q), " "@) + " "@ + rest.last());
        assert(x + " "@ + join(q, " "@) + " "@ + rest.last() =~= x + " "@ + (join(q, " "@) + " "@
            + rest.last()));
    }
}

/// Taking the command bar's escape hatch without changing the text runs the
/// model's own arguments (when they are all plain tokens and the first is not
/// a program name).
pub proof fn lemma_command_bar_runs_model(p: ProjectView)
    requires
        forall|i: int|
            0 <= i < ffmpeg_args(p).len() ==> plain_token(#[trigger] ffmpeg_args(p)[i]),
        ffmpeg_args(p).len() == 0 || !is_program_token(ffmpeg_args(p)[0]),
    ensures
        command_args_spec(command_line_spec(p)) == ffmpeg_args(p),
{
    lemma_command_line_round_trip(ffmpeg_args(p));
}

/// The global options that precede a model-driven run: quiet banner,
/// warnings-only logging, no stdin, machine-readable progress on stdout.
pub open spec fn run_prefix() -> Seq<Seq<char>> {
    seq!["-hide_banner"@, "-loglevel"@, "warning"@, "-nostdin"@, "-progress"@, "pipe:1"@]
}

/// The full argument vector of a model-driven run: the global options,
/// `-y` exactly when overwriting was confirmed, then the project's own
/// arguments.
pub open spec fn run_args_spec(p: ProjectView, overwrite: bool) -> Seq<Seq<char>> {
    run_prefix() + (if overwrite {
        seq!["-y"@]
    } else {
        Seq::empty()
    }) + ffmpeg_args(p)
}

fn push_lit(a: &mut Vec<String>, s: &str)
    ensures
        final(a).deep_view() == old(a).deep_view().push(s@),
{
    let t = string_of(s);
    a.push(t);
    assert(a.deep_view() =~= old(a).deep_view().push(s@));
}

fn append_tokens(a: &mut Vec<String>, mut b: Vec<String>)
    ensures
        final(a).deep_view() == old(a).deep_view() + b.deep_view(),
{
    let ghost bv = b.deep_view();
    a.append(&mut b);
    assert(a.deep_view() =~= old(a).deep_view() + bv);
}

/// The arguments ffmpeg is run with for `project`. Overwrite policy is
/// decided by the caller after an existence check; `-nostdin` keeps ffmpeg
/// from ever blocking on a prompt.
pub fn run_args(project: &Project, overwrite: bool) -> (r: Vec<String>)
    ensures
        r.deep_view() == run_args_spec(project@, overwrite),
{
    let mut a: Vec<String> = Vec::new();
    push_lit(&mut a, "-hide_banner");
    push_lit(&mut a, "-loglevel");
    push_lit(&mut a, "warning");
    push_lit(&mut a, "-nostdin");
    push_lit(&mut a, "-progress");
    push_lit(&mut a, "pipe:1");
    assert(a.deep_view() =~= run_prefix());
    if overwrite {
        push_lit(&mut a, "-y");
    }
    let ghost before = a.deep_view();
    assert(before =~= run_prefix() + (if overwrite {
        seq!["-y"@]
    } else {
        Seq::<Seq<char>>::empty()
    }));
    append_tokens(&mut a, project.to_args());
    a
}

/// The options prepended to a user-edited command: only what the progress
/// bar needs and what keeps ffmpeg off stdin.
pub open spec fn raw_prefix() -> Seq<Seq<char>> {
    seq!["-hide_banner"@, "-nostdin"@, "-progress"@, "pipe:1"@]
}

/// The arguments for running a user-edited command verbatim (the escape
/// hatch): an error for an empty command, otherwise the progress and stdin
/// options followed by the user's tokens exactly as written.
pub fn raw_run_args(user_args: Vec<String>) -> (r: Result<Vec<String>, String>)
    ensures
        match r {
            Ok(v) => user_args.len() > 0 && v.deep_view() == raw_prefix() + user_args.deep_view(),
            Err(e) => user_args.len() == 0 && e@ == "the edited command is empty"@,
        },
{
    if user_args.len() == 0 {
        return Err(string_of("the edited command is empty"));
    }
    let mut a: Vec<String> = Vec::new();
    push_lit(&mut a, "-hide_banner");
    push_lit(&mut a, "-nostdin");
    push_lit(&mut a, "-progress");
    push_lit(&mut a, "pipe:1");
    assert(a.deep_view() =~= raw_prefix());
    append_tokens(&mut a, user_args);
    Ok(a)
}

/// The lines of `lines` that are not blank, in order.
pub open spec fn nonblank(lines: Seq<Seq<char>>) -> Seq<Seq<char>>
    decreases lines.len(),
{
    if lines.len() == 0 {
        Seq::empty()
    } else if all_ws(lines.last()) {
        nonblank(lines.drop_last())
    } else {
        nonblank(lines.drop_last()).push(lines.last())
    }
}

/// The last `n` non-blank lines, joined with newlines.
pub open spec fn tail_spec(lines: Seq<Seq<char>>, n: nat) -> Seq<char> {
    let kept = nonblank(lines);
    let start = if kept.len() >= n {
        kept.len() - n
    } else {
        0
    };
    join(kept.skip(start), "\n"@)
}

/// The last `n` non-empty lines, joined: where ffmpeg's real error is.
pub fn tail(lines: &Vec<String>, n: usize) -> (r: String)
    ensures
        r@ == tail_spec(lines.deep_view(), n as nat),
{
    let ghost lv = lines.deep_view();
    let mut kept: Vec<String> = Vec::new();
    let mut i: usize = 0;
    while i < lines.len()
        invariant
            lv == lines.deep_view(),
            i <= lines.len(),
            kept.deep_view() == nonblank(lv.take(i as int)),
        decreases lines.len() - i,
    {
        assert(lv[i as int] == lines[i as int]@);
        assert(lv.take(i + 1).drop_last() =~= lv.take(i as int));
        if !is_blank(lines[i].as_str()) {
            let ghost before = kept.deep_view();
            kept.push(lines[i].clone());
            assert(kept.deep_view() =~= before.push(lv[i as int]));
        }
        i = i + 1;
    }
    assert(lv.take(lines.len() as int) =~= lv);
    let start = if kept.len() >= n {
        kept.len() - n
    } else {
        0
    };
    let ghost kv = kept.deep_view();
    let mut last: Vec<String> = Vec::new();
    let mut j = start;
    while j < kept.len()
        invariant
            kv == kept.deep_view(),
            start <= j <= kept.len(),
            last.deep_view() == kv.subrange(start as int, j as int),
        decreases kept.len() - j,
    {
        let ghost before = last.deep_view();
        let item = kept[j].clone();
        assert(kv[j as int] == kept[j as int]@);
        assert(item@ == kv[j as int]);
        last.push(item);
        assert(last.deep_view() =~= before.push(kv[j as int]));
        j = j + 1;
        assert(last.deep_view() =~= kv.subrange(start as int, j as int));
    }
    assert(kv.subrange(start as int, kept.len() as int) =~= kv.skip(start as int));
    join_strings(&last, "\n")
}

/// Details of a failed run, for a legible error message.
#[derive(Debug, Clone)]
pub struct RunFailure {
    pub code: Option<i32>,
    /// The tail of ffmpeg's stderr, where the actual error almost always is.
    pub stderr_tail: String,
}

/// How a finished run turns out: `Ok` when ffmpeg exited successfully,
/// otherwise a failure carrying the exit code and the last 20 non-blank
/// lines of its stderr.
pub fn finish_result(success: bool, code: Option<i32>, stderr: &Vec<String>) -> (r: Result<(), RunFailure>)
    ensures
        match r {
            Ok(()) => success,
            Err(f) => !success && f.code == code && f.stderr_tail@ == tail_spec(stderr.deep_view(), 20),
        },
{
    if success {
        Ok(())
    } else {
        Err(RunFailure { code, stderr_tail: tail(stderr, 20) })
    }
}

/// The position just past the last `\n` of `s` (0 when there is none).
pub open spec fn line_start(s: Seq<char>) -> int
    decreases s.len(),
{
    if s.len() == 0 {
        0
    } else if s.last() == '\n' {
        s.len() as int
    } else {
        line_start(s.drop_last())
    }
}

/// What `s.lines().last()` gives: `None` for an empty string, otherwise the
/// text after the last line break, where a final `\n` (with a `\r` before
/// it) ends the last line rather than starting a new one.
pub open spec fn last_line(s: Seq<char>) -> Option<Seq<char>> {
    if s.len() == 0 {
        None
    } else {
        let ends_nl = s.last() == '\n';
        let t = if ends_nl {
            s.drop_last()
        } else {
            s
        };
        let seg = t.skip(line_start(t));
        if ends_nl && seg.len() > 0 && seg.last() == '\r' {
            Some(seg.drop_last())
        } else {
            Some(seg)
        }
    }
}

proof fn lemma_line_start_bounds(s: Seq<char>)
    ensures
        0 <= line_start(s) <= s.len(),
    decreases s.len(),
{
    if s.len() > 0 && s.last() != '\n' {
        lemma_line_start_bounds(s.drop_last());
    }
}

fn find_line_start(v: &Vec<char>, end: usize) -> (r: usize)
    requires
        end <= v.len(),
    ensures
        r == line_start(v@.take(end as int)),
{
    let mut i = end;
    while i > 0
        invariant
            i <= end <= v.len(),
            line_start(v@.take(end as int)) == line_start(v@.take(i as int)),
        decreases i,
    {
        assert(v@.take(i as int).drop_last() =~= v@.take(i - 1));
        if v[i - 1] == '\n' {
            return i;
        }
        i = i - 1;
    }
    0
}

/// `s.lines().last()`.
pub fn last_line_of(s: &str) -> (r: Option<String>)
    ensures
        match r {
            Some(x) => last_line(s@) == Some(x@),
            None => last_line(s@) is None,
        },
{
    let v = chars_of(s);
    if v.len() == 0 {
        return None;
    }
    let ends_nl = v[v.len() - 1] == '\n';
    let end = if ends_nl { v.len() - 1 } else { v.len() };
    let ghost t = v@.take(end as int);
    assert(t =~= (if ends_nl { s@.drop_last() } else { s@ }));
    let k = find_line_start(&v, end);
    proof {
        lemma_line_start_bounds(t);
    }
    let stop = if ends_nl && end > k && v[end - 1] == '\r' { end - 1 } else { end };
    let mut w: Vec<char> = Vec::new();
    let mut i = k;
    while i < stop
        invariant
            k <= i <= stop <= end <= v.len(),
            w@ == v@.subrange(k as int, i as int),
        decreases stop - i,
    {
        w.push(v[i]);
        i = i + 1;
        assert(w@ =~= v@.subrange(k as int, i as int));
    }
    let r = string_from_chars(&w);
    assert(t.skip(k as int) =~= v@.subrange(k as int, end as int));
    if ends_nl && end > k && v[end - 1] == '\r' {
        assert(r@ =~= t.skip(k as int).drop_last());
    } else {
        assert(r@ =~= t.skip(k as int));
    }
    Some(r)
}

/// Decimal rendering of a signed integer.
pub open spec fn int_dec(i: int) -> Seq<char> {
    if i < 0 {
        seq!['-'] + dec((-i) as nat)
    } else {
        dec(i as nat)
    }
}

/// `i.to_string()` for an exit code.
pub fn fmt_i32(i: i32) -> (r: String)
    ensures
        r@ == int_dec(i as int),
{
    if i < 0 {
        let mut r = String::new();
        push_char(&mut r, '-');
        let m: u64 = (-(i as i64)) as u64;
        let d = fmt_u64(m);
        r.append(d.as_str());
        r
    } else {
        fmt_u64(i as u64)
    }
}

/// The one-line summary of a failed run:
/// `failed (exit <code or ?>): <last stderr line>`.
pub open spec fn failure_line_spec(code: Option<i32>, stderr_tail: Seq<char>) -> Seq<char> {
    let last = match last_line(stderr_tail) {
        Some(l) => l,
        None => "ffmpeg failed"@,
    };
    let c = match code {
        Some(c) => int_dec(c as int),
        None => "?"@,
    };
    "failed (exit "@ + c + "): "@ + last
}

/// The status line shown for a failed run.
pub fn failure_line(f: &RunFailure) -> (r: String)
    ensures
        r@ == failure_line_spec(f.code, f.stderr_tail@),
{
    let last = match last_line_of(f.stderr_tail.as_str()) {
        Some(l) => l,
        None => string_of("ffmpeg failed"),
    };
    let code = match f.code {
        Some(c) => fmt_i32(c),
        None => string_of("?"),
    };
    let mut r = string_of("failed (exit ");
    r.append(code.as_str());
    r.append("): ");
    r.append(last.as_str());
    r
}

/// The position of the first `c` in `s`, or -1.
pub open spec fn first_index(s: Seq<char>, c: char) -> int
    decreases s.len(),
{
    if s.len() == 0 {
        -1
    } else if s[0] == c {
        0
    } else {
        let r = first_index(s.skip(1), c);
        if r < 0 {
            -1
        } else {
            r + 1
        }
    }
}

proof fn lemma_first_index_bounds(s: Seq<char>, c: char)
    ensures
        -1 <= first_index(s, c) < s.len(),
        first_index(s, c) >= 0 ==> s[first_index(s, c)] == c,
    decreases s.len(),
{
    if s.len() > 0 && s[0] != c {
        lemma_first_index_bounds(s.skip(1), c);
    }
}

/// The values gathered from one `-progress` block so far.
#[derive(Debug, Clone)]
pub struct ProgressBlock {
    /// `out_time_us`, when it parsed as a number (it reads `N/A` early on).
    pub out_time_us: Option<u64>,
    /// `total_size` in bytes, when it parsed as a number.
    pub total_size: Option<u64>,
    /// The `speed` value as written (e.g. `1.5x`), trimmed.
    pub speed: Option<String>,
}

pub struct ProgressBlockView {
    pub out_time_us: Option<u64>,
    pub total_size: Option<u64>,
    pub speed: Option<Seq<char>>,
}

impl View for ProgressBlock {
    type V = ProgressBlockView;

    open spec fn view(&self) -> ProgressBlockView {
        ProgressBlockView {
            out_time_us: self.out_time_us,
            total_size: self.total_size,
            speed: crate::model::opt_view(self.speed),
        }
    }
}

/// What one line of the progress stream leads to.
pub enum ProgressEvent {
    /// Nothing to report yet.
    Pending,
    /// A block ended (`progress=continue`): report it.
    Block(ProgressBlock),
    /// The last block ended (`progress=end`): report it and stop reading.
    Last(ProgressBlock),
}

pub open spec fn empty_block() -> ProgressBlockView {
    ProgressBlockView { out_time_us: None, total_size: None, speed: None }
}

impl ProgressBlock {
    /// A block with nothing gathered yet.
    pub fn new() -> (r: ProgressBlock)
        ensures
            r@ == empty_block(),
    {
        ProgressBlock { out_time_us: None, total_size: None, speed: None }
    }
}

/// How a `key=value` line of ffmpeg's `-progress` output updates the block
/// being gathered; `None` for a line with no `=`, which is skipped.
pub open spec fn progress_key_value(line: Seq<char>) -> Option<(Seq<char>, Seq<char>)> {
    let k = first_index(line, '=');
    if k < 0 {
        None
    } else {
        Some((line.take(k), trim_spec(line.skip(k + 1))))
    }
}

/// The block after a line that does not end it.
pub open spec fn progress_update(acc: ProgressBlockView, key: Seq<char>, value: Seq<char>) -> ProgressBlockView {
    if key == "out_time_us"@ {
        ProgressBlockView { out_time_us: crate::probe::parse_u64_spec(value), ..acc }
    } else if key == "total_size"@ {
        ProgressBlockView { total_size: crate::probe::parse_u64_spec(value), ..acc }
    } else if key == "speed"@ {
        ProgressBlockView { speed: Some(value), ..acc }
    } else {
        acc
    }
}

/// Feed one line of ffmpeg's `-progress` stream to the block being gathered.
/// `out_time_us`, `total_size` and `speed` update it; `progress=…` ends the
/// block, which is reported and reset (with `progress=end` the stream is
/// over); lines without `=` and other keys change nothing.
pub fn progress_step(acc: &mut ProgressBlock, line: &str) -> (r: ProgressEvent)
    ensures
        match progress_key_value(line@) {
            None => r is Pending && final(acc)@ == old(acc)@,
            Some((key, value)) => if key == "progress"@ {
                final(acc)@ == empty_block() && (if value == "end"@ {
                    r matches ProgressEvent::Last(b) && b@ == old(acc)@
                } else {
                    r matches ProgressEvent::Block(b) && b@ == old(acc)@
                })
            } else {
                r is Pending && final(acc)@ == progress_update(old(acc)@, key, value)
            },
        },
{
    let v = chars_of(line);
    let mut k: usize = 0;
    assert(v@.skip(0) =~= v@);
    while k < v.len() && v[k] != '='
        invariant
            v@ == line@,
            k <= v.len(),
            first_index(line@, '=') == (if first_index(v@.skip(k as int), '=') < 0 {
                -1
            } else {
                first_index(v@.skip(k as int), '=') + k
            }),
        decreases v.len() - k,
    {
        assert(v@.skip(k as int).skip(1) =~= v@.skip(k + 1));
        k = k + 1;
    }
    if k == v.len() {
        assert(v@.skip(k as int) =~= Seq::<char>::empty());
        return ProgressEvent::Pending;
    }
    assert(first_index(v@.skip(k as int), '=') == 0);
    let key = crate::path::substring(&v, 0, k);
    let raw = crate::path::substring(&v, k + 1, v.len());
    assert(key@ =~= line@.take(k as int));
    assert(raw@ =~= line@.skip(k + 1));
    let value = trim(raw.as_str());
    let key = key.as_str();
    if str_eq(key, "progress") {
        let ended = str_eq(value.as_str(), "end");
        let done = ProgressBlock {
            out_time_us: acc.out_time_us,
            total_size: acc.total_size,
            speed: crate::model::opt_string_copy(&acc.speed),
        };
        *acc = ProgressBlock::new();
        if ended {
            ProgressEvent::Last(done)
        } else {
            ProgressEvent::Block(done)
        }
    } else {
        if str_eq(key, "out_time_us") {
            acc.out_time_us = crate::probe::parse_u64(value.as_str());
        } else if str_eq(key, "total_size") {
            acc.total_size = crate::probe::parse_u64(value.as_str());
        } else if str_eq(key, "speed") {
            acc.speed = Some(value);
        }
        ProgressEvent::Pending
    }
}

} // verus!
