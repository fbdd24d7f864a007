//! What the invocation grammar promises as a whole: an invocation written with
//! every argument quoted and escaped reads back as exactly that function and
//! those arguments, and whatever it reads is trimmed.

use vstd::prelude::*;
use crate::repl::{LineAction, ReplOutcome, line_action, step_matches, is_exit_command, is_help_command};
use crate::text::{is_trimmed, is_white_space, trim, trim_end, trim_start, lemma_trim_is_trimmed};
use crate::invocation::{
    ArgLexer, lex_char, lex_from, lex_start, spec_split_args, spec_parse_invocation, has_char,
    is_first_index, is_last_index, lemma_first_index_unique, lemma_last_index_unique,
    first_index_of, last_index_of, lemma_first_index_exists, lemma_last_index_exists,
    InvocationError,
};

verus! {

/// Every character of `a`, each behind a backslash.
pub open spec fn escape_all(a: Seq<char>) -> Seq<char>
    decreases a.len(),
{
    if a.len() == 0 {
        Seq::empty()
    } else {
        escape_all(a.drop_last()) + seq!['\\', a.last()]
    }
}

/// An argument in double quotes with every character escaped.
pub open spec fn quote_arg(a: Seq<char>) -> Seq<char> {
    seq!['"'] + escape_all(a) + seq!['"']
}

/// Quoted arguments separated by commas.
pub open spec fn join_quoted(args: Seq<Seq<char>>) -> Seq<char>
    decreases args.len(),
{
    if args.len() == 0 {
        Seq::empty()
    } else if args.len() == 1 {
        quote_arg(args[0])
    } else {
        join_quoted(args.drop_last()) + seq![','] + quote_arg(args.last())
    }
}

/// The line `name(quoted args)`.
pub open spec fn render_invocation(name: Seq<char>, args: Seq<Seq<char>>) -> Seq<char> {
    name + seq!['('] + join_quoted(args) + seq![')']
}

/// Reading `s` then `t` is reading `s + t`.
pub proof fn lemma_lex_concat(st: ArgLexer, s: Seq<char>, t: Seq<char>)
    ensures
        lex_from(st, s + t) == lex_from(lex_from(st, s), t),
    decreases t.len(),
{
    if t.len() == 0 {
        assert(s + t =~= s);
    } else {
        assert((s + t).drop_last() =~= s + t.drop_last());
        assert((s + t).last() == t.last());
        lemma_lex_concat(st, s, t.drop_last());
    }
}

proof fn lemma_lex_escaped(st: ArgLexer, a: Seq<char>)
    requires
        !st.escape,
    ensures
        lex_from(st, escape_all(a)) == (ArgLexer {
            args: st.args,
            current: st.current + a,
            in_quotes: st.in_quotes,
            quote: st.quote,
            escape: false,
        }),
    decreases a.len(),
{
    if a.len() == 0 {
        assert(st.current + a =~= st.current);
    } else {
        let x = a.last();
        lemma_lex_escaped(st, a.drop_last());
        lemma_lex_concat(st, escape_all(a.drop_last()), seq!['\\', x]);
        let mid = lex_from(st, escape_all(a.drop_last()));
        assert(seq!['\\', x].drop_last() =~= seq!['\\']);
        lemma_lex_single(mid, '\\');
        assert(lex_from(mid, seq!['\\', x]) == lex_char(lex_char(mid, '\\'), x));
        assert((st.current + a.drop_last()).push(x) =~= st.current + a);
    }
}

proof fn lemma_lex_single(st: ArgLexer, c: char)
    ensures
        lex_from(st, seq![c]) == lex_char(st, c),
{
    assert(seq![c].drop_last() =~= Seq::<char>::empty());
    assert(lex_from(st, Seq::<char>::empty()) == st);
    assert(seq![c].last() == c);
}

proof fn lemma_lex_quoted(st: ArgLexer, a: Seq<char>)
    requires
        !st.escape,
        !st.in_quotes,
    ensures
        lex_from(st, quote_arg(a)) == (ArgLexer {
            args: st.args,
            current: st.current + a,
            in_quotes: false,
            quote: '"',
            escape: false,
        }),
{
    let open = seq!['"'];
    lemma_lex_concat(st, open + escape_all(a), seq!['"']);
    lemma_lex_concat(st, open, escape_all(a));
    lemma_lex_single(st, '"');
    let s1 = lex_from(st, open);
    lemma_lex_escaped(s1, a);
    let s2 = lex_from(s1, escape_all(a));
    lemma_lex_single(s2, '"');
}

/// All arguments in the sequence are trimmed.
pub open spec fn all_trimmed(args: Seq<Seq<char>>) -> bool {
    forall|i: int| 0 <= i < args.len() ==> is_trimmed(#[trigger] args[i])
}

proof fn lemma_lex_joined(st: ArgLexer, args: Seq<Seq<char>>)
    requires
        !st.escape,
        !st.in_quotes,
        st.current.len() == 0,
        args.len() > 0,
        all_trimmed(args),
    ensures
        lex_from(st, join_quoted(args)) == (ArgLexer {
            args: st.args + args.drop_last(),
            current: args.last(),
            in_quotes: false,
            quote: '"',
            escape: false,
        }),
    decreases args.len(),
{
    if args.len() == 1 {
        lemma_lex_quoted(st, args[0]);
        assert(st.current + args[0] =~= args[0]);
        assert(st.args + args.drop_last() =~= st.args);
    } else {
        let dl = args.drop_last();
        assert(all_trimmed(dl)) by {
            assert forall|i: int| 0 <= i < dl.len() implies is_trimmed(#[trigger] dl[i]) by {
                assert(dl[i] == args[i]);
            }
        }
        lemma_lex_joined(st, dl);
        let j = join_quoted(dl);
        lemma_lex_concat(st, j + seq![','], quote_arg(args.last()));
        lemma_lex_concat(st, j, seq![',']);
        let s1 = lex_from(st, j);
        lemma_lex_single(s1, ',');
        let s2 = lex_from(s1, seq![',']);
        assert(is_trimmed(args[args.len() - 2]));
        assert(trim(dl.last()) == dl.last());
        assert(s2.args =~= st.args + args.drop_last());
        lemma_lex_quoted(s2, args.last());
        assert(s2.current + args.last() =~= args.last());
    }
}

proof fn lemma_join_quoted_ends(args: Seq<Seq<char>>)
    requires
        args.len() > 0,
    ensures
        join_quoted(args).len() >= 2,
        join_quoted(args)[0] == '"',
        join_quoted(args).last() == '"',
    decreases args.len(),
{
    if args.len() > 1 {
        lemma_join_quoted_ends(args.drop_last());
    }
}

/// Arguments written quoted and escaped, separated by commas, split back into
/// exactly those arguments, provided each is free of surrounding whitespace
/// (which the reader trims away).
pub proof fn law_split_args_reads_back_quoted(args: Seq<Seq<char>>)
    requires
        all_trimmed(args),
    ensures
        spec_split_args(join_quoted(args)) == Ok::<Seq<Seq<char>>, crate::invocation::InvocationError>(args),
{
    if args.len() > 0 {
        lemma_join_quoted_ends(args);
        lemma_lex_joined(lex_start(), args);
        assert(is_trimmed(args[args.len() - 1]));
        assert(Seq::<Seq<char>>::empty() + args.drop_last() =~= args.drop_last());
        assert(args.drop_last().push(args.last()) =~= args);
    } else {
        assert(join_quoted(args).len() == 0);
        assert(args =~= Seq::<Seq<char>>::empty());
    }
}

/// An invocation rendered from a function name and quoted arguments parses back
/// into that name and those arguments, for any name that is non-empty, free of
/// surrounding whitespace and of `(`, and any arguments free of surrounding whitespace.
pub proof fn law_parse_reads_back_rendered(name: Seq<char>, args: Seq<Seq<char>>)
    requires
        name.len() > 0,
        is_trimmed(name),
        !has_char(name, '('),
        all_trimmed(args),
    ensures
        spec_parse_invocation(render_invocation(name, args)) == Ok::<(Seq<char>, Seq<Seq<char>>), crate::invocation::InvocationError>((name, args)),
{
    let j = join_quoted(args);
    let s = render_invocation(name, args);
    let open = name.len() as int;
    let close = s.len() - 1;
    assert(s[open] == '(');
    assert(s[close] == ')');
    assert forall|k: int| 0 <= k < open implies s[k] != '(' by {
        assert(s[k] == name[k]);
    }
    assert(is_first_index(s, '(', open));
    lemma_first_index_unique(s, '(', open);
    assert(is_last_index(s, ')', close));
    lemma_last_index_unique(s, ')', close);
    assert(s.subrange(0, open) =~= name);
    assert(s.subrange(open + 1, close) =~= j);
    if args.len() > 0 {
        lemma_join_quoted_ends(args);
    }
    assert(trim(j) == j);
    law_split_args_reads_back_quoted(args);
}


proof fn lemma_lex_keeps_args_trimmed(st: ArgLexer, s: Seq<char>)
    requires
        all_trimmed(st.args),
    ensures
        all_trimmed(lex_from(st, s).args),
    decreases s.len(),
{
    if s.len() > 0 {
        lemma_lex_keeps_args_trimmed(st, s.drop_last());
        let mid = lex_from(st, s.drop_last());
        lemma_trim_is_trimmed(mid.current);
        let next = lex_char(mid, s.last());
        assert forall|i: int| 0 <= i < next.args.len() implies is_trimmed(#[trigger] next.args[i]) by {
            if i < mid.args.len() {
                assert(next.args[i] == mid.args[i]);
            }
        }
    }
}

/// Every argument that the reader produces is free of surrounding whitespace.
pub proof fn law_split_args_are_trimmed(s: Seq<char>)
    ensures
        spec_split_args(s) matches Ok(args) ==> all_trimmed(args),
{
    if s.len() > 0 {
        lemma_lex_keeps_args_trimmed(lex_start(), s);
        let st = lex_from(lex_start(), s);
        lemma_trim_is_trimmed(st.current);
        let out = st.args.push(trim(st.current));
        assert forall|i: int| 0 <= i < out.len() implies is_trimmed(#[trigger] out[i]) by {
            if i < st.args.len() {
                assert(out[i] == st.args[i]);
            }
        }
    }
}

proof fn lemma_trim_start_keeps_absent(s: Seq<char>, c: char)
    requires
        !has_char(s, c),
    ensures
        !has_char(trim_start(s), c),
    decreases s.len(),
{
    if s.len() > 0 && is_white_space(s[0]) {
        let df = s.drop_first();
        assert forall|i: int| 0 <= i < df.len() implies df[i] != c by {
            assert(df[i] == s[i + 1]);
        }
        lemma_trim_start_keeps_absent(df, c);
    }
}

proof fn lemma_trim_end_keeps_absent(s: Seq<char>, c: char)
    requires
        !has_char(s, c),
    ensures
        !has_char(trim_end(s), c),
    decreases s.len(),
{
    if s.len() > 0 && is_white_space(s.last()) {
        let dl = s.drop_last();
        assert forall|i: int| 0 <= i < dl.len() implies dl[i] != c by {
            assert(dl[i] == s[i]);
        }
        lemma_trim_end_keeps_absent(dl, c);
    }
}

/// The function name that the reader produces is non-empty, free of surrounding
/// whitespace and holds no `(`; each argument is free of surrounding whitespace.
pub proof fn law_parsed_invocation_is_clean(s: Seq<char>)
    ensures
        spec_parse_invocation(s) matches Ok((function, args)) ==> {
            &&& function.len() > 0
            &&& is_trimmed(function)
            &&& !has_char(function, '(')
            &&& all_trimmed(args)
        },
{
    if has_char(s, '(') && has_char(s, ')') {
        lemma_first_index_exists(s, '(');
        let open = first_index_of(s, '(');
        let close = last_index_of(s, ')');
        let head = s.subrange(0, open);
        assert forall|i: int| 0 <= i < head.len() implies head[i] != '(' by {
            assert(head[i] == s[i]);
        }
        lemma_trim_start_keeps_absent(head, '(');
        lemma_trim_end_keeps_absent(trim_start(head), '(');
        lemma_trim_is_trimmed(head);
        law_split_args_are_trimmed(trim(s.subrange(open + 1, close)));
    }
}


/// The comma-separated fields of `s`, taken literally: one more field than commas.
pub open spec fn comma_fields(s: Seq<char>) -> Seq<Seq<char>>
    decreases s.len(),
{
    if s.len() == 0 {
        seq![Seq::empty()]
    } else {
        let f = comma_fields(s.drop_last());
        if s.last() == ',' {
            f.push(Seq::empty())
        } else {
            f.update(f.len() - 1, f.last().push(s.last()))
        }
    }
}

/// `s` holds no quote and no backslash.
pub open spec fn is_plain(s: Seq<char>) -> bool {
    forall|i: int| 0 <= i < s.len() ==> #[trigger] s[i] != '"' && s[i] != '\'' && s[i] != '\\'
}

proof fn lemma_comma_fields_nonempty(s: Seq<char>)
    ensures
        comma_fields(s).len() >= 1,
    decreases s.len(),
{
    if s.len() > 0 {
        lemma_comma_fields_nonempty(s.drop_last());
    }
}

proof fn lemma_lex_plain(s: Seq<char>)
    requires
        is_plain(s),
    ensures
        lex_from(lex_start(), s) == (ArgLexer {
            args: comma_fields(s).drop_last().map_values(|f: Seq<char>| trim(f)),
            current: comma_fields(s).last(),
            in_quotes: false,
            quote: '\0',
            escape: false,
        }),
    decreases s.len(),
{
    lemma_comma_fields_nonempty(s);
    if s.len() == 0 {
        assert(comma_fields(s).drop_last().map_values(|f: Seq<char>| trim(f)) =~= Seq::<Seq<char>>::empty());
    } else {
        let dl = s.drop_last();
        assert(is_plain(dl)) by {
            assert forall|i: int| 0 <= i < dl.len() implies #[trigger] dl[i] != '"' && dl[i] != '\'' && dl[i] != '\\' by {
                assert(dl[i] == s[i]);
            }
        }
        lemma_lex_plain(dl);
        lemma_comma_fields_nonempty(dl);
        let f = comma_fields(dl);
        let c = s.last();
        assert(s[s.len() - 1] == c);
        if c == ',' {
            assert(f.push(Seq::empty()).drop_last() =~= f);
            assert(f.drop_last().map_values(|g: Seq<char>| trim(g)).push(trim(f.last())) =~= f.map_values(|g: Seq<char>| trim(g)));
        } else {
            let f2 = f.update(f.len() - 1, f.last().push(c));
            assert(f2.drop_last() =~= f.drop_last());
        }
    }
}

/// Text without quotes or backslashes splits at every comma into trimmed fields:
/// `a, b ,c` gives `a`, `b`, `c`, and `n` commas always give `n + 1` arguments.
pub proof fn law_plain_arguments_split_at_commas(s: Seq<char>)
    requires
        s.len() > 0,
        is_plain(s),
    ensures
        spec_split_args(s) == Ok::<Seq<Seq<char>>, crate::invocation::InvocationError>(
            comma_fields(s).map_values(|f: Seq<char>| trim(f)),
        ),
{
    lemma_lex_plain(s);
    lemma_comma_fields_nonempty(s);
    let f = comma_fields(s);
    assert(f.drop_last().map_values(|g: Seq<char>| trim(g)).push(trim(f.last())) =~= f.map_values(|g: Seq<char>| trim(g)));
}


/// Where a left-to-right scan of argument text stands: inside a quoted run
/// (opened by `quote`) or not, and whether the last character was a backslash
/// that makes the next one literal.
pub struct QuoteScan {
    /// Inside a quoted run.
    pub in_quotes: bool,
    /// The character that opened the quoted run.
    pub quote: char,
    /// The next character is taken literally.
    pub escape: bool,
}

/// The scan after one more character: a pending backslash makes `c` literal; an
/// unescaped backslash escapes the next character; inside quotes only the
/// opening quote character closes them; outside, `"` or `'` opens a quoted run.
pub open spec fn scan_char(q: QuoteScan, c: char) -> QuoteScan {
    if q.escape {
        QuoteScan { in_quotes: q.in_quotes, quote: q.quote, escape: false }
    } else if c == '\\' {
        QuoteScan { in_quotes: q.in_quotes, quote: q.quote, escape: true }
    } else if q.in_quotes {
        if c == q.quote {
            QuoteScan { in_quotes: false, quote: q.quote, escape: false }
        } else {
            q
        }
    } else if c == '"' || c == '\'' {
        QuoteScan { in_quotes: true, quote: c, escape: false }
    } else {
        q
    }
}

/// The scan after all of `s`.
pub open spec fn scan(s: Seq<char>) -> QuoteScan
    decreases s.len(),
{
    if s.len() == 0 {
        QuoteScan { in_quotes: false, quote: '\0', escape: false }
    } else {
        scan_char(scan(s.drop_last()), s.last())
    }
}

/// The comma at position `i` separates arguments: it stands outside every
/// quoted run and no backslash escapes it.
pub open spec fn is_separator(s: Seq<char>, i: int) -> bool {
    &&& 0 <= i < s.len()
    &&& s[i] == ','
    &&& !scan(s.take(i)).in_quotes
    &&& !scan(s.take(i)).escape
}

/// The number of separating commas in `s`.
pub open spec fn separator_count(s: Seq<char>) -> nat
    decreases s.len(),
{
    if s.len() == 0 {
        0
    } else {
        separator_count(s.drop_last()) + if is_separator(s, s.len() - 1) { 1nat } else { 0nat }
    }
}

/// The length of the run of backslashes that ends `s`.
pub open spec fn trailing_backslashes(s: Seq<char>) -> nat
    decreases s.len(),
{
    if s.len() > 0 && s.last() == '\\' {
        1 + trailing_backslashes(s.drop_last())
    } else {
        0
    }
}

proof fn lemma_lex_follows_scan(s: Seq<char>)
    ensures
        lex_from(lex_start(), s).in_quotes == scan(s).in_quotes,
        lex_from(lex_start(), s).quote == scan(s).quote,
        lex_from(lex_start(), s).escape == scan(s).escape,
        lex_from(lex_start(), s).args.len() == separator_count(s),
    decreases s.len(),
{
    if s.len() > 0 {
        lemma_lex_follows_scan(s.drop_last());
        assert(s.take(s.len() - 1) =~= s.drop_last());
        assert(s[s.len() - 1] == s.last());
    }
}

/// A pending escape at the end of the text is exactly an odd run of trailing
/// backslashes, inside quotes or out.
pub proof fn lemma_escape_is_odd_backslash_run(s: Seq<char>)
    ensures
        scan(s).escape == (trailing_backslashes(s) % 2 == 1),
    decreases s.len(),
{
    if s.len() > 0 {
        lemma_escape_is_odd_backslash_run(s.drop_last());
    }
}

/// Non-empty argument text that splits gives one argument more than it has
/// separating commas (commas outside quotes and not escaped); empty text gives none.
pub proof fn law_argument_count_is_separators_plus_one(s: Seq<char>)
    ensures
        spec_split_args(s) matches Ok(args) ==> args.len() == if s.len() == 0 {
            0
        } else {
            separator_count(s) + 1
        },
{
    lemma_lex_follows_scan(s);
}

/// Splitting fails exactly when the text is non-empty and either leaves a quoted
/// run open (an unclosed quote, reported first) or ends in an odd run of
/// backslashes (a trailing escape).
pub proof fn law_split_fails_exactly_on_open_quote_or_trailing_escape(s: Seq<char>)
    ensures
        (spec_split_args(s) == Err::<Seq<Seq<char>>, crate::invocation::InvocationError>(
            crate::invocation::InvocationError::UnclosedQuote,
        )) <==> (s.len() > 0 && scan(s).in_quotes),
        (spec_split_args(s) == Err::<Seq<Seq<char>>, crate::invocation::InvocationError>(
            crate::invocation::InvocationError::TrailingEscape,
        )) <==> (s.len() > 0 && !scan(s).in_quotes && trailing_backslashes(s) % 2 == 1),
        spec_split_args(s) is Ok <==> (s.len() == 0 || (!scan(s).in_quotes && trailing_backslashes(s) % 2 == 0)),
{
    lemma_lex_follows_scan(s);
    lemma_escape_is_odd_backslash_run(s);
}


proof fn lemma_lex_inside_quotes(st: ArgLexer, t: Seq<char>)
    requires
        st.in_quotes,
        !st.escape,
        forall|i: int| 0 <= i < t.len() ==> #[trigger] t[i] != st.quote && t[i] != '\\',
    ensures
        lex_from(st, t) == (ArgLexer {
            args: st.args,
            current: st.current + t,
            in_quotes: true,
            quote: st.quote,
            escape: false,
        }),
    decreases t.len(),
{
    if t.len() == 0 {
        assert(st.current + t =~= st.current);
    } else {
        let dl = t.drop_last();
        assert forall|i: int| 0 <= i < dl.len() implies #[trigger] dl[i] != st.quote && dl[i] != '\\' by {
            assert(dl[i] == t[i]);
        }
        lemma_lex_inside_quotes(st, dl);
        assert(t[t.len() - 1] == t.last());
        assert((st.current + dl).push(t.last()) =~= st.current + t);
    }
}

/// Text in double or single quotes that holds neither that quote nor a
/// backslash is one argument: the quoted text, with only its ends trimmed
/// (`"My Token"` gives `My Token`).
pub proof fn law_quoted_text_is_one_argument(q: char, t: Seq<char>)
    requires
        q == '"' || q == '\'',
        forall|i: int| 0 <= i < t.len() ==> #[trigger] t[i] != q && t[i] != '\\',
    ensures
        spec_split_args(seq![q] + t + seq![q]) == Ok::<Seq<Seq<char>>, InvocationError>(seq![trim(t)]),
{
    let st = lex_start();
    lemma_lex_concat(st, seq![q] + t, seq![q]);
    lemma_lex_concat(st, seq![q], t);
    lemma_lex_single(st, q);
    let s1 = lex_from(st, seq![q]);
    lemma_lex_inside_quotes(s1, t);
    let s2 = lex_from(s1, t);
    lemma_lex_single(s2, q);
    assert(s1.current + t =~= t);
    assert(Seq::<Seq<char>>::empty().push(trim(t)) =~= seq![trim(t)]);
}

/// Whatever follows the last `)` of a line is never read: when the line holds
/// both parentheses, appending text without a `)` leaves the result unchanged,
/// whatever it was (`transfer("alice", 10);` reads as `transfer("alice", 10)`).
pub proof fn law_text_after_last_close_is_ignored(s: Seq<char>, t: Seq<char>)
    requires
        has_char(s, '('),
        has_char(s, ')'),
        !has_char(t, ')'),
    ensures
        spec_parse_invocation(s + t) == spec_parse_invocation(s),
{
    let st = s + t;
    lemma_first_index_exists(s, '(');
    lemma_last_index_exists(s, ')');
    let open = first_index_of(s, '(');
    let close = last_index_of(s, ')');
    assert(st[open] == s[open]);
    assert forall|j: int| 0 <= j < open implies st[j] != '(' by {
        assert(st[j] == s[j]);
    }
    assert(is_first_index(st, '(', open));
    lemma_first_index_unique(st, '(', open);
    assert(st[close] == s[close]);
    assert forall|j: int| close < j < st.len() implies st[j] != ')' by {
        if j < s.len() {
            assert(st[j] == s[j]);
        } else {
            assert(st[j] == t[j - s.len()]);
        }
    }
    assert(is_last_index(st, ')', close));
    lemma_last_index_unique(st, ')', close);
    assert(has_char(st, '('));
    assert(has_char(st, ')'));
    assert(st.subrange(0, open) =~= s.subrange(0, open));
    if open <= close {
        assert(st.subrange(open + 1, close) =~= s.subrange(open + 1, close));
    }
}

/// A line that is neither blank nor a shell command is read as exactly what the
/// invocation grammar makes of the trimmed line: the same function and the same
/// arguments, in order, empty ones included, or the same error.
pub proof fn law_line_reads_as_its_invocation(line: Seq<char>)
    ensures
        ({
            let t = trim(line);
            t.len() > 0 && !is_exit_command(t) && !is_help_command(t) ==> match spec_parse_invocation(t) {
                Ok((f, a)) => line_action(line) == LineAction::Invoke(f, a),
                Err(e) => line_action(line) == LineAction::Invalid(e),
            }
        }),
{
}

/// A call with empty parentheses has no arguments: `name()` is read as `name`
/// with none, for any name without surrounding whitespace and without `(`.
pub proof fn law_call_with_empty_parentheses_has_no_arguments(name: Seq<char>)
    requires
        name.len() > 0,
        is_trimmed(name),
        !has_char(name, '('),
    ensures
        line_action(name + seq!['(', ')']) == LineAction::Invoke(name, Seq::empty()),
{
    let line = name + seq!['(', ')'];
    let empty = Seq::<Seq<char>>::empty();
    assert(all_trimmed(empty));
    law_parse_reads_back_rendered(name, empty);
    assert(join_quoted(empty).len() == 0);
    assert(render_invocation(name, empty) =~= line);
    assert(line[0] == name[0]);
    assert(line.last() == ')');
    assert(trim(line) == line);
    assert(line[name.len() as int] == '(');
    reveal_strlit(":q");
    reveal_strlit(":quit");
    reveal_strlit(":exit");
    reveal_strlit(":help");
    assert(!is_exit_command(line)) by {
        assert(line.last() == ')');
    }
    assert(!is_help_command(line)) by {
        assert(line.last() == ')');
    }
}

/// Each step of the prompt loop hands on exactly the invocation that the line
/// reads as: the same function and the same argument list, in count and order,
/// empty arguments included; an invalid line stops with the grammar's error.
pub proof fn law_step_hands_over_the_parsed_invocation(line: Seq<char>, o: ReplOutcome)
    requires
        step_matches(Some(line), o),
    ensures
        ({
            let t = trim(line);
            t.len() > 0 && !is_exit_command(t) && !is_help_command(t) ==> match spec_parse_invocation(t) {
                Ok((f, a)) => o matches ReplOutcome::Invoke(g, b) && g@ == f && b.deep_view() == a,
                Err(e) => o == ReplOutcome::Failed(e),
            }
        }),
{
}


/// Text in which every character is escaped by a backslash, outside quotes, is
/// one argument: those characters taken literally (commas and quotes included),
/// trimmed.
pub proof fn law_escaped_text_is_one_argument(a: Seq<char>)
    requires
        a.len() > 0,
    ensures
        spec_split_args(escape_all(a)) == Ok::<Seq<Seq<char>>, InvocationError>(seq![trim(a)]),
{
    lemma_lex_escaped(lex_start(), a);
    assert(lex_start().current + a =~= a);
    assert(escape_all(a) =~= escape_all(a.drop_last()) + seq!['\\', a.last()]);
    assert(Seq::<Seq<char>>::empty().push(trim(a)) =~= seq![trim(a)]);
}

/// `w` consists of whitespace only.
pub open spec fn all_white(w: Seq<char>) -> bool {
    forall|i: int| 0 <= i < w.len() ==> is_white_space(#[trigger] w[i])
}

proof fn lemma_trim_start_skips_white(w: Seq<char>, x: Seq<char>)
    requires
        all_white(w),
    ensures
        trim_start(w + x) == trim_start(x),
    decreases w.len(),
{
    if w.len() == 0 {
        assert(w + x =~= x);
    } else {
        let df = w.drop_first();
        assert forall|i: int| 0 <= i < df.len() implies is_white_space(#[trigger] df[i]) by {
            assert(df[i] == w[i + 1]);
        }
        assert((w + x)[0] == w[0]);
        assert((w + x).drop_first() =~= df + x);
        lemma_trim_start_skips_white(df, x);
    }
}

/// Whitespace before a line changes nothing in how it reads as an invocation.
pub proof fn law_leading_whitespace_is_ignored(w: Seq<char>, s: Seq<char>)
    requires
        all_white(w),
    ensures
        spec_parse_invocation(w + s) == spec_parse_invocation(s),
{
    let ws = w + s;
    let n = w.len() as int;
    assert forall|i: int| 0 <= i < n implies ws[i] != '(' && ws[i] != ')' by {
        assert(ws[i] == w[i]);
        assert(is_white_space(w[i]));
    }
    if has_char(s, '(') {
        lemma_first_index_exists(s, '(');
        let open = first_index_of(s, '(');
        assert(ws[open + n] == s[open]);
        assert forall|j: int| 0 <= j < open + n implies ws[j] != '(' by {
            if j >= n {
                assert(ws[j] == s[j - n]);
            }
        }
        assert(is_first_index(ws, '(', open + n));
        lemma_first_index_unique(ws, '(', open + n);
        if has_char(s, ')') {
            lemma_last_index_exists(s, ')');
            let close = last_index_of(s, ')');
            assert(ws[close + n] == s[close]);
            assert forall|j: int| close + n < j < ws.len() implies ws[j] != ')' by {
                assert(ws[j] == s[j - n]);
            }
            assert(is_last_index(ws, ')', close + n));
            lemma_last_index_unique(ws, ')', close + n);
            assert(ws.subrange(0, open + n) =~= w + s.subrange(0, open));
            lemma_trim_start_skips_white(w, s.subrange(0, open));
            if open <= close {
                assert(ws.subrange(open + n + 1, close + n) =~= s.subrange(open + 1, close));
            }
        } else {
            assert forall|j: int| 0 <= j < ws.len() implies ws[j] != ')' by {
                if j >= n {
                    assert(ws[j] == s[j - n]);
                }
            }
        }
    } else {
        assert forall|j: int| 0 <= j < ws.len() implies ws[j] != '(' by {
            if j >= n {
                assert(ws[j] == s[j - n]);
            }
        }
    }
}

} // verus!
