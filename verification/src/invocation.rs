//! The grammar of a contract invocation typed at the shell prompt:
//! `name(arg1, "quoted, arg", 'single', esc\,aped)`.
//!
//! Arguments are separated by unquoted commas; a double or single quote opens a
//! quoted run that only the same quote character closes; a backslash takes the
//! next character literally, inside quotes or out; every argument is trimmed.

use vstd::prelude::*;
use crate::text::{trim, trim_str};

verus! {

/// Why a line could not be read as an invocation.
#[derive(Debug, Clone, Copy, PartialEq, Eq)]
pub enum InvocationError {
    /// The line holds no `(`.
    MissingOpenParen,
    /// The line holds no `)`.
    MissingCloseParen,
    /// The last `)` stands before the first `(`.
    CloseBeforeOpen,
    /// Nothing but whitespace stands before the first `(`.
    MissingFunctionName,
    /// A quoted run of the arguments is never closed.
    UnclosedQuote,
    /// The arguments end with a lone backslash.
    TrailingEscape,
}

impl InvocationError {
    /// The text the shell reports for this error.
    pub open spec fn spec_message(self) -> Seq<char> {
        match self {
            InvocationError::MissingOpenParen => "Expected invocation like fn(\"arg\")"@,
            InvocationError::MissingCloseParen => "Missing closing ')'"@,
            InvocationError::CloseBeforeOpen => "Invalid invocation"@,
            InvocationError::MissingFunctionName => "Missing function name"@,
            InvocationError::UnclosedQuote => "Unclosed quote in arguments"@,
            InvocationError::TrailingEscape => "Trailing escape in arguments"@,
        }
    }

    /// The text the shell reports for this error.
    pub fn message(&self) -> (m: &'static str)
        ensures
            m@ == self.spec_message(),
    {
        match self {
            InvocationError::MissingOpenParen => "Expected invocation like fn(\"arg\")",
            InvocationError::MissingCloseParen => "Missing closing ')'",
            InvocationError::CloseBeforeOpen => "Invalid invocation",
            InvocationError::MissingFunctionName => "Missing function name",
            InvocationError::UnclosedQuote => "Unclosed quote in arguments",
            InvocationError::TrailingEscape => "Trailing escape in arguments",
        }
    }
}

/// The state of the argument lexer after a prefix of the argument text.
pub struct ArgLexer {
    /// Arguments completed so far, each trimmed.
    pub args: Seq<Seq<char>>,
    /// The characters of the argument being read.
    pub current: Seq<char>,
    /// Inside a quoted run.
    pub in_quotes: bool,
    /// The character that opened the quoted run.
    pub quote: char,
    /// The previous character was an unconsumed backslash.
    pub escape: bool,
}

/// The lexer before any character.
pub open spec fn lex_start() -> ArgLexer {
    ArgLexer { args: Seq::empty(), current: Seq::empty(), in_quotes: false, quote: '\0', escape: false }
}

/// One step of the lexer on character `c`.
pub open spec fn lex_char(st: ArgLexer, c: char) -> ArgLexer {
    if st.escape {
        ArgLexer { args: st.args, current: st.current.push(c), in_quotes: st.in_quotes, quote: st.quote, escape: false }
    } else if c == '\\' {
        ArgLexer { args: st.args, current: st.current, in_quotes: st.in_quotes, quote: st.quote, escape: true }
    } else if st.in_quotes {
        if c == st.quote {
            ArgLexer { args: st.args, current: st.current, in_quotes: false, quote: st.quote, escape: false }
        } else {
            ArgLexer { args: st.args, current: st.current.push(c), in_quotes: true, quote: st.quote, escape: false }
        }
    } else if c == '"' || c == '\'' {
        ArgLexer { args: st.args, current: st.current, in_quotes: true, quote: c, escape: false }
    } else if c == ',' {
        ArgLexer { args: st.args.push(trim(st.current)), current: Seq::empty(), in_quotes: false, quote: st.quote, escape: false }
    } else {
        ArgLexer { args: st.args, current: st.current.push(c), in_quotes: false, quote: st.quote, escape: false }
    }
}

/// The lexer state after reading all of `s` from state `st`.
pub open spec fn lex_from(st: ArgLexer, s: Seq<char>) -> ArgLexer
    decreases s.len(),
{
    if s.len() == 0 {
        st
    } else {
        lex_char(lex_from(st, s.drop_last()), s.last())
    }
}

/// The arguments of the text between the parentheses: none for empty text,
/// else every comma-separated argument, trimmed, or the error that ends the text.
pub open spec fn spec_split_args(s: Seq<char>) -> Result<Seq<Seq<char>>, InvocationError> {
    if s.len() == 0 {
        Ok(Seq::empty())
    } else {
        let st = lex_from(lex_start(), s);
        if st.in_quotes {
            Err(InvocationError::UnclosedQuote)
        } else if st.escape {
            Err(InvocationError::TrailingEscape)
        } else {
            Ok(st.args.push(trim(st.current)))
        }
    }
}

/// The result of `split_args` taken by its view.
pub open spec fn args_result_view(r: Result<Vec<String>, InvocationError>) -> Result<Seq<Seq<char>>, InvocationError> {
    match r {
        Ok(v) => Ok(v.deep_view()),
        Err(e) => Err(e),
    }
}

/// Splits the text between the parentheses of an invocation into its arguments.
pub fn split_args(input: &str) -> (res: Result<Vec<String>, InvocationError>)
    ensures
        args_result_view(res) == spec_split_args(input@),
{
    let len = input.unicode_len();
    if len == 0 {
        let empty: Vec<String> = Vec::new();
        assert(empty.deep_view() =~= Seq::<Seq<char>>::empty());
        return Ok(empty);
    }
    let mut args: Vec<String> = Vec::new();
    let mut current = String::new();
    let mut in_quotes = false;
    let mut quote_char = '\0';
    let mut escape = false;
    let mut i: usize = 0;
    assert(args.deep_view() =~= Seq::<Seq<char>>::empty());
    assert(input@.take(0) =~= Seq::<char>::empty());
    while i < len
        invariant
            i <= len,
            len == input@.len(),
            lex_from(lex_start(), input@.take(i as int)) == (ArgLexer {
                args: args.deep_view(),
                current: current@,
                in_quotes: in_quotes,
                quote: quote_char,
                escape: escape,
            }),
        decreases len - i,
    {
        let ch = input.get_char(i);
        let ghost before = current@;
        assert(input@.take(i + 1).drop_last() =~= input@.take(i as int));
        assert(input@.take(i + 1).last() == ch);
        assert(input@.subrange(i as int, i + 1) =~= seq![ch]);
        let ghost st = lex_from(lex_start(), input@.take(i as int));
        assert(lex_from(lex_start(), input@.take(i + 1)) == lex_char(st, ch));
        if escape {
            current.append(input.substring_char(i, i + 1));
            assert(current@ =~= before.push(ch));
            escape = false;
        } else if ch == '\\' {
            escape = true;
        } else if in_quotes {
            if ch == quote_char {
                in_quotes = false;
            } else {
                current.append(input.substring_char(i, i + 1));
            assert(current@ =~= before.push(ch));
            }
        } else if ch == '"' || ch == '\'' {
            in_quotes = true;
            quote_char = ch;
        } else if ch == ',' {
            let piece = trim_str(current.as_str());
            let ghost old_args = args.deep_view();
            args.push(piece);
            assert(args.deep_view() =~= old_args.push(trim(before)));
            current = String::new();
        } else {
            current.append(input.substring_char(i, i + 1));
            assert(current@ =~= before.push(ch));
        }
        i = i + 1;
    }
    assert(input@.take(len as int) =~= input@);
    if in_quotes {
        return Err(InvocationError::UnclosedQuote);
    }
    if escape {
        return Err(InvocationError::TrailingEscape);
    }
    let ghost before = current@;
    let ghost old_args = args.deep_view();
    let last = trim_str(current.as_str());
    args.push(last);
    assert(args.deep_view() =~= old_args.push(trim(before)));
    Ok(args)
}


/// `c` occurs in `s`.
pub open spec fn has_char(s: Seq<char>, c: char) -> bool {
    exists|i: int| 0 <= i < s.len() && s[i] == c
}

/// `i` is the position of the first `c` in `s`.
pub open spec fn is_first_index(s: Seq<char>, c: char, i: int) -> bool {
    &&& 0 <= i < s.len()
    &&& s[i] == c
    &&& forall|j: int| 0 <= j < i ==> s[j] != c
}

/// `i` is the position of the last `c` in `s`.
pub open spec fn is_last_index(s: Seq<char>, c: char, i: int) -> bool {
    &&& 0 <= i < s.len()
    &&& s[i] == c
    &&& forall|j: int| i < j < s.len() ==> s[j] != c
}

/// The position of the first `c` in `s` (meaningful when `has_char(s, c)`).
pub open spec fn first_index_of(s: Seq<char>, c: char) -> int {
    choose|i: int| is_first_index(s, c, i)
}

/// The position of the last `c` in `s` (meaningful when `has_char(s, c)`).
pub open spec fn last_index_of(s: Seq<char>, c: char) -> int {
    choose|i: int| is_last_index(s, c, i)
}

/// The first position of a character is unique.
pub proof fn lemma_first_index_unique(s: Seq<char>, c: char, i: int)
    requires
        is_first_index(s, c, i),
    ensures
        first_index_of(s, c) == i,
{
    let k = first_index_of(s, c);
    assert(is_first_index(s, c, k));
    if k < i {
        assert(s[k] != c);
    } else if i < k {
        assert(s[i] != c);
    }
}

/// The last position of a character is unique.
pub proof fn lemma_last_index_unique(s: Seq<char>, c: char, i: int)
    requires
        is_last_index(s, c, i),
    ensures
        last_index_of(s, c) == i,
{
    let k = last_index_of(s, c);
    assert(is_last_index(s, c, k));
    if k < i {
        assert(s[i] != c);
    } else if i < k {
        assert(s[k] != c);
    }
}

/// A character that occurs has a first position.
pub proof fn lemma_first_index_exists(s: Seq<char>, c: char)
    requires
        has_char(s, c),
    ensures
        is_first_index(s, c, first_index_of(s, c)),
    decreases s.len(),
{
    let dl = s.drop_last();
    if has_char(dl, c) {
        lemma_first_index_exists(dl, c);
        let i = first_index_of(dl, c);
        assert forall|j: int| 0 <= j < i implies s[j] != c by {
            assert(dl[j] == s[j]);
        }
        assert(dl[i] == s[i]);
        assert(is_first_index(s, c, i));
    } else {
        let i = s.len() - 1;
        assert forall|j: int| 0 <= j < i implies s[j] != c by {
            assert(dl[j] == s[j]);
        }
        let k = choose|k: int| 0 <= k < s.len() && s[k] == c;
        if k < i {
            assert(dl[k] == s[k]);
        }
        assert(is_first_index(s, c, i));
    }
}

/// A character that occurs has a last position.
pub proof fn lemma_last_index_exists(s: Seq<char>, c: char)
    requires
        has_char(s, c),
    ensures
        is_last_index(s, c, last_index_of(s, c)),
    decreases s.len(),
{
    let df = s.drop_first();
    if has_char(df, c) {
        lemma_last_index_exists(df, c);
        let i = last_index_of(df, c);
        assert forall|j: int| i + 1 < j < s.len() implies s[j] != c by {
            assert(df[j - 1] == s[j]);
        }
        assert(s[i + 1] == df[i]);
        assert(is_last_index(s, c, i + 1));
    } else {
        let k = choose|k: int| 0 <= k < s.len() && s[k] == c;
        if k > 0 {
            assert(df[k - 1] == s[k]);
        }
        assert forall|j: int| 0 < j < s.len() implies s[j] != c by {
            assert(df[j - 1] == s[j]);
        }
        assert(is_last_index(s, c, 0));
    }
}

/// A line read as an invocation: the trimmed text before the first `(` names the
/// function, and the trimmed text between it and the last `)` holds the arguments.
pub open spec fn spec_parse_invocation(s: Seq<char>) -> Result<(Seq<char>, Seq<Seq<char>>), InvocationError> {
    if !has_char(s, '(') {
        Err(InvocationError::MissingOpenParen)
    } else if !has_char(s, ')') {
        Err(InvocationError::MissingCloseParen)
    } else {
        let open = first_index_of(s, '(');
        let close = last_index_of(s, ')');
        if close < open {
            Err(InvocationError::CloseBeforeOpen)
        } else {
            let function = trim(s.subrange(0, open));
            if function.len() == 0 {
                Err(InvocationError::MissingFunctionName)
            } else {
                match spec_split_args(trim(s.subrange(open + 1, close))) {
                    Ok(args) => Ok((function, args)),
                    Err(e) => Err(e),
                }
            }
        }
    }
}

/// The result of `parse_invocation` taken by its view.
pub open spec fn invocation_result_view(r: Result<(String, Vec<String>), InvocationError>) -> Result<(Seq<char>, Seq<Seq<char>>), InvocationError> {
    match r {
        Ok((f, a)) => Ok((f@, a.deep_view())),
        Err(e) => Err(e),
    }
}

/// Reads a line such as `transfer("alice", 10)` as a function name and its arguments.
pub fn parse_invocation(input: &str) -> (res: Result<(String, Vec<String>), InvocationError>)
    ensures
        invocation_result_view(res) == spec_parse_invocation(input@),
{
    let len = input.unicode_len();
    let mut open: usize = 0;
    while open < len && input.get_char(open) != '('
        invariant
            open <= len,
            len == input@.len(),
            forall|j: int| 0 <= j < open ==> input@[j] != '(',
        decreases len - open,
    {
        open = open + 1;
    }
    if open == len {
        return Err(InvocationError::MissingOpenParen);
    }
    proof {
        assert(is_first_index(input@, '(', open as int));
        lemma_first_index_unique(input@, '(', open as int);
    }
    let mut after_close: usize = len;
    while after_close > 0 && input.get_char(after_close - 1) != ')'
        invariant
            after_close <= len,
            len == input@.len(),
            forall|j: int| after_close <= j < len ==> input@[j] != ')',
        decreases after_close,
    {
        after_close = after_close - 1;
    }
    if after_close == 0 {
        return Err(InvocationError::MissingCloseParen);
    }
    let close = after_close - 1;
    proof {
        assert(is_last_index(input@, ')', close as int));
        lemma_last_index_unique(input@, ')', close as int);
    }
    if close < open {
        return Err(InvocationError::CloseBeforeOpen);
    }
    let function = trim_str(input.substring_char(0, open));
    if function.as_str().unicode_len() == 0 {
        return Err(InvocationError::MissingFunctionName);
    }
    let args_raw = trim_str(input.substring_char(open + 1, close));
    match split_args(args_raw.as_str()) {
        Ok(args) => Ok((function, args)),
        Err(e) => Err(e),
    }
}

} // verus!
