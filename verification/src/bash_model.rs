//! The mathematical model of the Bash command scanner.
//!
//! The scanner reads a command line as a sequence of characters and keeps a
//! small state: the position of the next character, how many command and
//! parameter substitutions are open, the first direct invocation of the GitHub
//! CLI that it met, and the heredocs whose bodies start on the next line.
//! Each spec function below describes one step of the scanner as a function
//! from a state to a result and the state that follows it.
//!
//! A loop in the scanner moves forward on every round. The definitions state
//! that with `advanced`: a round that did not move would end the scan with
//! `Unparsable`. The executable scanner proves that this never happens.
use vstd::prelude::*;

verus! {

/// Why a command line could not be checked.
#[derive(Debug, Clone, Copy, PartialEq, Eq, Structural)]
pub enum ParseError {
    /// The command line is not complete (an unclosed quote or substitution).
    Unparsable,
    /// Substitutions nest more than `MAX_NESTING` levels deep.
    TooDeep,
}

/// The deepest nesting of substitutions that the scanner follows.
pub const MAX_NESTING: usize = 64;

/// Where a command list ends.
#[derive(Debug, Clone, Copy, PartialEq, Eq, Structural)]
pub enum Until {
    End,
    CloseParen,
}

/// A heredoc whose body starts on the next line.
pub struct HeredocModel {
    pub delimiter: Seq<char>,
    pub strip_tabs: bool,
}

/// A shell word as the scanner records it.
pub struct WordModel {
    pub text: Seq<char>,
    pub quoted: bool,
    pub expanded: bool,
    /// `Some(b)` once the word has an `=`: whether the text before the first
    /// `=` names a variable.
    pub assignment: Option<bool>,
}

/// The state of the scanner.
pub struct ScanState {
    pub pos: int,
    pub nesting: int,
    pub found: Option<Seq<char>>,
    pub heredocs: Seq<HeredocModel>,
}

/// A word with no text that is neither quoted nor expanded.
pub open spec fn empty_word() -> WordModel {
    WordModel { text: Seq::empty(), quoted: false, expanded: false, assignment: None }
}

/// The state at the start of the input, at nesting level `nesting`.
pub open spec fn start_state(nesting: int) -> ScanState {
    ScanState { pos: 0, nesting, found: None, heredocs: Seq::empty() }
}

/// The character at `i`, if there is one.
pub open spec fn at(s: Seq<char>, i: int) -> Option<char> {
    if 0 <= i < s.len() {
        Some(s[i])
    } else {
        None
    }
}

/// The state with its position moved to `pos`.
pub open spec fn with_pos(st: ScanState, pos: int) -> ScanState {
    ScanState { pos, ..st }
}

/// A round of a loop moved forward and stayed within the input.
pub open spec fn advanced(s: Seq<char>, a: ScanState, b: ScanState) -> bool {
    a.pos < b.pos <= s.len()
}

/// The state did not move backwards and stayed within the input.
pub open spec fn forward(s: Seq<char>, a: ScanState, b: ScanState) -> bool {
    a.pos <= b.pos <= s.len()
}

// ---------------------------------------------------------------------------
// Characters
// ---------------------------------------------------------------------------
/// A shell metacharacter: it ends a word.
pub open spec fn metachar(c: char) -> bool {
    c == ' ' || c == '\t' || c == '\r' || c == '\n' || c == ';' || c == '&' || c == '|' || c
        == '(' || c == ')' || c == '<' || c == '>'
}

/// An ASCII decimal digit.
pub open spec fn is_digit(c: char) -> bool {
    '0' <= c <= '9'
}

/// An ASCII letter.
pub open spec fn is_alpha(c: char) -> bool {
    ('a' <= c <= 'z') || ('A' <= c <= 'Z')
}

/// An ASCII letter or digit.
pub open spec fn is_alnum(c: char) -> bool {
    is_alpha(c) || is_digit(c)
}

/// A character that may continue a variable name.
pub open spec fn is_name_char(c: char) -> bool {
    is_alnum(c) || c == '_'
}

/// A character that may follow `$` to name a special parameter.
pub open spec fn is_special_param(c: char) -> bool {
    c == '_' || c == '@' || c == '*' || c == '#' || c == '?' || c == '$' || c == '!' || c == '-'
}

/// A blank between words: space, tab, or carriage return.
pub open spec fn is_blank(c: char) -> bool {
    c == ' ' || c == '\t' || c == '\r'
}

/// A character of a control operator.
pub open spec fn is_operator_char(c: char) -> bool {
    c == ';' || c == '|' || c == '&'
}

/// A character of a redirection operator.
pub open spec fn is_redirection_char(c: char) -> bool {
    c == '<' || c == '>' || c == '&' || c == '-'
}

/// The code of a character with ASCII upper case letters made lower case.
pub open spec fn lower(c: char) -> u32 {
    if 'A' <= c <= 'Z' {
        (c as u32 + 32) as u32
    } else {
        c as u32
    }
}

/// ASCII case-insensitive equality.
pub open spec fn eq_ignore_case(a: Seq<char>, b: Seq<char>) -> bool {
    a.len() == b.len() && forall|i: int| 0 <= i < a.len() ==> lower(#[trigger] a[i]) == lower(b[i])
}

/// A character that separates the segments of a path.
pub open spec fn is_path_separator(c: char) -> bool {
    c == '/' || c == '\\' || c == ':'
}

/// The index just after the last path separator of `w`, or 0 when `w` has none.
pub open spec fn last_segment_start(w: Seq<char>, i: int) -> int
    decreases i,
{
    if i <= 0 {
        0
    } else if is_path_separator(w[i - 1]) {
        i
    } else {
        last_segment_start(w, i - 1)
    }
}

/// The last path segment of a word.
pub open spec fn last_segment(w: Seq<char>) -> Seq<char> {
    w.subrange(last_segment_start(w, w.len() as int), w.len() as int)
}

/// A word names the GitHub CLI: its last path segment is `gh` or `gh.exe`,
/// in any ASCII case.
pub open spec fn names_gh(w: Seq<char>) -> bool {
    eq_ignore_case(last_segment(w), seq!['g', 'h']) || eq_ignore_case(
        last_segment(w),
        seq!['g', 'h', '.', 'e', 'x', 'e'],
    )
}

/// The part of an assignment's left side that must be a name: without one
/// trailing `+` and without anything from the first `[`.
pub open spec fn assignment_target(text: Seq<char>) -> Seq<char> {
    let t = if text.len() > 0 && text.last() == '+' {
        text.drop_last()
    } else {
        text
    };
    t.take(run_end(t, 0, Run::NotOpenBracket))
}

/// A variable name: a letter or `_`, then letters, digits, and `_`.
pub open spec fn is_name(t: Seq<char>) -> bool {
    t.len() > 0 && (is_alpha(t[0]) || t[0] == '_') && forall|i: int|
        1 <= i < t.len() ==> is_name_char(#[trigger] t[i])
}

/// The text before an `=` names a variable.
pub open spec fn assignment_name(text: Seq<char>) -> bool {
    is_name(assignment_target(text))
}

/// Words that leave the next word in command position.
pub open spec fn is_reserved_prefix(t: Seq<char>) -> bool {
    t == seq!['!'] || t == seq!['i', 'f'] || t == seq!['t', 'h', 'e', 'n'] || t == seq![
        'e',
        'l',
        's',
        'e',
    ] || t == seq!['e', 'l', 'i', 'f'] || t == seq!['w', 'h', 'i', 'l', 'e'] || t == seq![
        'u',
        'n',
        't',
        'i',
        'l',
    ] || t == seq!['d', 'o'] || t == seq!['t', 'i', 'm', 'e']
}

/// The word is unquoted, unexpanded, and its text is `t`.
pub open spec fn is_plain(w: WordModel, t: Seq<char>) -> bool {
    !w.quoted && !w.expanded && w.text == t
}

// ---------------------------------------------------------------------------
// Runs of characters
// ---------------------------------------------------------------------------
/// The kinds of character runs that the scanner steps over.
#[derive(Clone, Copy, PartialEq, Eq, Structural)]
pub enum Run {
    /// Up to a newline: a comment or a line.
    NotNewline,
    /// Control operators: `;`, `|`, `&`.
    Operator,
    /// Decimal digits.
    Digit,
    /// The characters of a redirection operator.
    RedirectionChar,
    /// Spaces and tabs.
    SpaceOrTab,
    /// The characters that continue a variable name.
    NameChar,
    /// Tabs.
    Tab,
    /// Up to an opening bracket.
    NotOpenBracket,
}

/// The character continues a run of the kind `run`.
pub open spec fn keeps(run: Run, c: char) -> bool {
    match run {
        Run::NotNewline => c != '\n',
        Run::Operator => is_operator_char(c),
        Run::Digit => is_digit(c),
        Run::RedirectionChar => is_redirection_char(c),
        Run::SpaceOrTab => c == ' ' || c == '\t',
        Run::NameChar => is_name_char(c),
        Run::Tab => c == '\t',
        Run::NotOpenBracket => c != '[',
    }
}

/// The first position at or after `p` whose character does not continue `run`.
pub open spec fn run_end(s: Seq<char>, p: int, run: Run) -> int
    decreases s.len() - p,
{
    if 0 <= p < s.len() && keeps(run, s[p]) {
        run_end(s, p + 1, run)
    } else {
        p
    }
}

/// A run ends within the input, and all its characters continue it.
pub proof fn lemma_run_end(s: Seq<char>, p: int, run: Run)
    ensures
        p <= run_end(s, p, run),
        0 <= p <= s.len() ==> run_end(s, p, run) <= s.len(),
        0 <= p ==> forall|i: int| p <= i < run_end(s, p, run) ==> #[trigger] keeps(run, s[i]),
        0 <= p <= s.len() ==> run_end(s, p, run) == s.len() || !keeps(run, s[run_end(s, p, run)]),
    decreases s.len() - p,
{
    if 0 <= p < s.len() && keeps(run, s[p]) {
        lemma_run_end(s, p + 1, run);
    }
}

/// The end of a comment or line that starts at `p`.
pub open spec fn comment_end(s: Seq<char>, p: int) -> int {
    run_end(s, p, Run::NotNewline)
}

/// The end of the control operator that starts at `p`.
pub open spec fn operator_end(s: Seq<char>, p: int) -> int {
    run_end(s, p, Run::Operator)
}

/// The end of the digits that start at `p`.
pub open spec fn digits_end(s: Seq<char>, p: int) -> int {
    run_end(s, p, Run::Digit)
}

/// The end of the redirection operator that starts at `p`.
pub open spec fn redirection_operator_end(s: Seq<char>, p: int) -> int {
    run_end(s, p, Run::RedirectionChar)
}

/// The end of the spaces and tabs that start at `p`.
pub open spec fn spaces_end(s: Seq<char>, p: int) -> int {
    run_end(s, p, Run::SpaceOrTab)
}

/// The end of the variable name characters that start at `p`.
pub open spec fn name_end(s: Seq<char>, p: int) -> int {
    run_end(s, p, Run::NameChar)
}

/// The first position at or after `p` that is neither a blank nor an escaped
/// newline.
pub open spec fn blanks_end(s: Seq<char>, p: int) -> int
    decreases s.len() - p,
{
    if 0 <= p < s.len() {
        if is_blank(s[p]) {
            blanks_end(s, p + 1)
        } else if s[p] == '\\' && at(s, p + 1) == Some('\n') {
            blanks_end(s, p + 2)
        } else {
            p
        }
    } else {
        p
    }
}

/// Blanks end within the input, at or after `p`.
pub proof fn lemma_blanks_end(s: Seq<char>, p: int)
    ensures
        p <= blanks_end(s, p),
        0 <= p <= s.len() ==> blanks_end(s, p) <= s.len(),
    decreases s.len() - p,
{
    if 0 <= p < s.len() {
        if is_blank(s[p]) {
            lemma_blanks_end(s, p + 1);
        } else if s[p] == '\\' && at(s, p + 1) == Some('\n') {
            lemma_blanks_end(s, p + 2);
        }
    }
}

/// At `p` stand one or more digits and then `<` or `>`.
pub open spec fn fd_redirection_at(s: Seq<char>, p: int) -> bool {
    digits_end(s, p) > p && (at(s, digits_end(s, p)) == Some('<') || at(s, digits_end(s, p))
        == Some('>'))
}

// ---------------------------------------------------------------------------
// Heredoc bodies
// ---------------------------------------------------------------------------
/// A line of a heredoc body as it is compared with the delimiter: without a
/// trailing carriage return and, for `<<-`, without leading tabs.
pub open spec fn clean_line(line: Seq<char>, strip_tabs: bool) -> Seq<char> {
    let l = if line.len() > 0 && line.last() == '\r' {
        line.drop_last()
    } else {
        line
    };
    if strip_tabs {
        l.skip(run_end(l, 0, Run::Tab))
    } else {
        l
    }
}

/// The position after the body of heredoc `h` that starts at `p`: after the
/// line that matches the delimiter, or the end of the input.
pub open spec fn heredoc_end(s: Seq<char>, p: int, h: HeredocModel) -> int
    decreases s.len() - p,
{
    if 0 <= p < s.len() {
        let e = comment_end(s, p);
        let next = if e < s.len() {
            e + 1
        } else {
            e
        };
        if clean_line(s.subrange(p, e), h.strip_tabs) == h.delimiter {
            next
        } else {
            proof {
                lemma_run_end(s, p, Run::NotNewline);
            }
            heredoc_end(s, next, h)
        }
    } else {
        p
    }
}

/// The position after the bodies of the heredocs `hs`, one after the other.
pub open spec fn heredocs_end(s: Seq<char>, p: int, hs: Seq<HeredocModel>) -> int
    decreases hs.len(),
{
    if hs.len() == 0 {
        p
    } else {
        heredocs_end(s, heredoc_end(s, p, hs[0]), hs.drop_first())
    }
}

// ---------------------------------------------------------------------------
// Quoting that does not nest
// ---------------------------------------------------------------------------
/// A backslash outside quotes: the next character is taken literally; an
/// escaped newline is a line continuation.
pub open spec fn scan_escape(s: Seq<char>, st: ScanState, w: WordModel) -> (ScanState, WordModel) {
    let w1 = WordModel { quoted: true, ..w };
    match at(s, st.pos) {
        None => (st, w1),
        Some(c) => (
            with_pos(st, st.pos + 1),
            if c == '\n' {
                w1
            } else {
                WordModel { text: w1.text.push(c), ..w1 }
            },
        ),
    }
}

/// The body of a single-quoted string, from after the opening quote.
pub open spec fn single_quoted_loop(s: Seq<char>, st: ScanState, w: WordModel) -> (
    Result<(), ParseError>,
    ScanState,
    WordModel,
)
    decreases s.len() - st.pos,
{
    match at(s, st.pos) {
        None => (Err(ParseError::Unparsable), st, w),
        Some(c) => if c == '\'' {
            (Ok(()), with_pos(st, st.pos + 1), w)
        } else {
            single_quoted_loop(
                s,
                with_pos(st, st.pos + 1),
                WordModel { text: w.text.push(c), ..w },
            )
        },
    }
}

/// A single-quoted string, from after the opening quote.
pub open spec fn scan_single_quoted(s: Seq<char>, st: ScanState, w: WordModel) -> (
    Result<(), ParseError>,
    ScanState,
    WordModel,
) {
    single_quoted_loop(s, st, WordModel { quoted: true, ..w })
}

/// The rounds of a single-quoted string take every character up to the
/// closing quote as it is.
proof fn lemma_single_quoted_loop(s: Seq<char>, st: ScanState, w: WordModel, e: int)
    requires
        0 <= st.pos <= e < s.len(),
        s[e] == '\'',
        forall|i: int| st.pos <= i < e ==> s[i] != '\'',
    ensures
        single_quoted_loop(s, st, w) == (
            Ok::<(), ParseError>(()),
            with_pos(st, e + 1),
            WordModel { text: w.text + s.subrange(st.pos, e), ..w },
        ),
    decreases e - st.pos,
{
    if st.pos < e {
        let w1 = WordModel { text: w.text.push(s[st.pos]), ..w };
        lemma_single_quoted_loop(s, with_pos(st, st.pos + 1), w1, e);
        assert(w1.text + s.subrange(st.pos + 1, e) =~= w.text + s.subrange(st.pos, e));
    } else {
        assert(w.text + s.subrange(st.pos, e) =~= w.text);
    }
}

/// The rounds of a single-quoted string with no closing quote run into the
/// end of the input.
proof fn lemma_single_quoted_loop_unclosed(s: Seq<char>, st: ScanState, w: WordModel)
    requires
        0 <= st.pos,
        forall|i: int| st.pos <= i < s.len() ==> s[i] != '\'',
    ensures
        single_quoted_loop(s, st, w).0 == Err::<(), ParseError>(ParseError::Unparsable),
    decreases s.len() - st.pos,
{
    if st.pos < s.len() {
        lemma_single_quoted_loop_unclosed(
            s,
            with_pos(st, st.pos + 1),
            WordModel { text: w.text.push(s[st.pos]), ..w },
        );
    }
}

/// A single-quoted string takes its text literally: when the next `'` stands
/// at `e`, the word is quoted, its text goes on with every character before
/// `e` as it is, and the scan goes on after the quote; with no `'` left, the
/// command line is not complete.
pub proof fn single_quotes_take_text_literally(s: Seq<char>, st: ScanState, w: WordModel, e: int)
    requires
        0 <= st.pos <= e <= s.len(),
        e < s.len() ==> s[e] == '\'',
        forall|i: int| st.pos <= i < e ==> s[i] != '\'',
    ensures
        e < s.len() ==> scan_single_quoted(s, st, w) == (
            Ok::<(), ParseError>(()),
            with_pos(st, e + 1),
            WordModel { text: w.text + s.subrange(st.pos, e), quoted: true, ..w },
        ),
        e == s.len() ==> scan_single_quoted(s, st, w).0 == Err::<(), ParseError>(
            ParseError::Unparsable,
        ),
{
    if e < s.len() {
        lemma_single_quoted_loop(s, st, WordModel { quoted: true, ..w }, e);
    } else {
        lemma_single_quoted_loop_unclosed(s, st, WordModel { quoted: true, ..w });
    }
}

/// A backslash inside double quotes.
pub open spec fn scan_double_quoted_escape(s: Seq<char>, st: ScanState, w: WordModel) -> (
    ScanState,
    WordModel,
) {
    match at(s, st.pos) {
        Some(c) => if c == '\n' {
            (with_pos(st, st.pos + 1), w)
        } else if c == '$' || c == '`' || c == '"' || c == '\\' {
            (with_pos(st, st.pos + 1), WordModel { text: w.text.push(c), ..w })
        } else {
            (st, WordModel { text: w.text.push('\\'), ..w })
        },
        None => (st, WordModel { text: w.text.push('\\'), ..w }),
    }
}

/// The character that a backslash and `c` stand for in a `$'...'` string.
pub open spec fn ansi_c_escape(c: char) -> char {
    if c == 'n' {
        '\n'
    } else if c == 't' {
        '\t'
    } else {
        c
    }
}

/// The body of a `$'...'` string, from after the opening quote.
pub open spec fn ansi_c_loop(s: Seq<char>, st: ScanState, w: WordModel) -> (
    Result<(), ParseError>,
    ScanState,
    WordModel,
)
    decreases s.len() - st.pos,
{
    match at(s, st.pos) {
        None => (Err(ParseError::Unparsable), st, w),
        Some(c) => if c == '\'' {
            (Ok(()), with_pos(st, st.pos + 1), w)
        } else if c == '\\' {
            match at(s, st.pos + 1) {
                None => (Err(ParseError::Unparsable), with_pos(st, st.pos + 1), w),
                Some(d) => ansi_c_loop(
                    s,
                    with_pos(st, st.pos + 2),
                    WordModel { text: w.text.push(ansi_c_escape(d)), ..w },
                ),
            }
        } else {
            ansi_c_loop(s, with_pos(st, st.pos + 1), WordModel { text: w.text.push(c), ..w })
        },
    }
}

/// A `$'...'` string, from after the opening quote.
pub open spec fn scan_ansi_c_quoted(s: Seq<char>, st: ScanState, w: WordModel) -> (
    Result<(), ParseError>,
    ScanState,
    WordModel,
) {
    ansi_c_loop(s, st, WordModel { quoted: true, ..w })
}

/// A variable name after `$`, whose first character stands at `st.pos`.
pub open spec fn scan_variable_name(s: Seq<char>, st: ScanState, w: WordModel, first: char) -> (
    ScanState,
    WordModel,
) {
    let p = st.pos + 1;
    if is_alpha(first) || first == '_' {
        let e = name_end(s, p);
        (with_pos(st, e), WordModel { text: w.text.push(first) + s.subrange(p, e), ..w })
    } else {
        (with_pos(st, p), WordModel { text: w.text.push(first), ..w })
    }
}

/// The body of a backquoted command substitution, from after the opening
/// backquote: the command text, with `` \` ``, `\\`, and `\$` unescaped, and the
/// position after the closing backquote.
pub open spec fn backquote_body(s: Seq<char>, p: int, acc: Seq<char>) -> Option<(Seq<char>, int)>
    decreases s.len() - p,
{
    if 0 <= p < s.len() {
        let c = s[p];
        if c == '`' {
            Some((acc, p + 1))
        } else if c == '\\' {
            if p + 1 < s.len() {
                let d = s[p + 1];
                if d == '`' || d == '\\' || d == '$' {
                    backquote_body(s, p + 2, acc.push(d))
                } else {
                    backquote_body(s, p + 2, acc.push('\\').push(d))
                }
            } else {
                None
            }
        } else {
            backquote_body(s, p + 1, acc.push(c))
        }
    } else {
        None
    }
}

/// The body of a backquoted command ends after its start and is shorter
/// than the characters it was read from.
pub proof fn lemma_backquote_body(s: Seq<char>, p: int, acc: Seq<char>)
    requires
        0 <= p,
    ensures
        backquote_body(s, p, acc) matches Some((inner, e)) ==> p < e <= s.len() && inner.len() + 1
            <= acc.len() + e - p,
    decreases s.len() - p,
{
    if 0 <= p < s.len() {
        let c = s[p];
        if c == '`' {
        } else if c == '\\' {
            if p + 1 < s.len() {
                let d = s[p + 1];
                if d == '`' || d == '\\' || d == '$' {
                    lemma_backquote_body(s, p + 2, acc.push(d));
                } else {
                    lemma_backquote_body(s, p + 2, acc.push('\\').push(d));
                }
            }
        } else {
            lemma_backquote_body(s, p + 1, acc.push(c));
        }
    }
}

/// The state in which the scanner of a backquoted command starts: at the
/// start of its text, at the nesting level of the enclosing scanner.
pub open spec fn nested_state(st: ScanState) -> ScanState {
    start_state(st.nesting)
}

// ---------------------------------------------------------------------------
// The scanner
// ---------------------------------------------------------------------------
/// A command list in a new nesting level. Nesting more than `MAX_NESTING`
/// levels deep is `TooDeep`.
pub open spec fn scan_commands(s: Seq<char>, st: ScanState, until: Until) -> (
    Result<(), ParseError>,
    ScanState,
)
    decreases s.len() - st.pos, 11int,
{
    if st.nesting > MAX_NESTING {
        (Err(ParseError::TooDeep), st)
    } else {
        let out = scan_command_list(s, ScanState { nesting: st.nesting + 1, ..st }, until);
        (out.0, ScanState { nesting: st.nesting, ..out.1 })
    }
}

/// Arithmetic (`$((...))` or `((...))`) in a new nesting level.
pub open spec fn scan_nested_arithmetic(s: Seq<char>, st: ScanState) -> (
    Result<(), ParseError>,
    ScanState,
)
    decreases s.len() - st.pos, 11int,
{
    if st.nesting > MAX_NESTING {
        (Err(ParseError::TooDeep), st)
    } else {
        let out = arithmetic_loop(s, ScanState { nesting: st.nesting + 1, ..st }, 0);
        (out.0, ScanState { nesting: st.nesting, ..out.1 })
    }
}

/// A parameter expansion (`${...}`) in a new nesting level.
pub open spec fn scan_nested_parameter(s: Seq<char>, st: ScanState) -> (
    Result<(), ParseError>,
    ScanState,
)
    decreases s.len() - st.pos, 11int,
{
    if st.nesting > MAX_NESTING {
        (Err(ParseError::TooDeep), st)
    } else {
        let out = parameter_loop(s, ScanState { nesting: st.nesting + 1, ..st }, 1, empty_word());
        (out.0, ScanState { nesting: st.nesting, ..out.1 })
    }
}

/// A command list, up to the end of the input or to the `)` that closes it.
pub open spec fn scan_command_list(s: Seq<char>, st: ScanState, until: Until) -> (
    Result<(), ParseError>,
    ScanState,
)
    decreases s.len() - st.pos, 10int,
{
    command_list_loop(s, st, until, true, 0)
}

/// Where a command list that was read without error ends: at the end of the
/// input when it runs to the end, and just after its closing `)` otherwise.
pub open spec fn list_ends_well(s: Seq<char>, out: (Result<(), ParseError>, ScanState), until: Until) -> bool {
    out.0 is Ok ==> match until {
        Until::End => out.1.pos == s.len(),
        Until::CloseParen => 1 <= out.1.pos <= s.len() && s[out.1.pos - 1] == ')',
    }
}

/// The rounds of a command list end well.
pub proof fn lemma_command_list_loop_ends(
    s: Seq<char>,
    st: ScanState,
    until: Until,
    at_command: bool,
    depth: int,
)
    requires
        0 <= st.pos <= s.len(),
    ensures
        list_ends_well(s, command_list_loop(s, st, until, at_command, depth), until),
    decreases s.len() - st.pos,
{
    let b = blanks_end(s, st.pos);
    lemma_blanks_end(s, st.pos);
    let sb = with_pos(st, b);
    match at(s, b) {
        None => {},
        Some(c) => {
            let round = command_round(s, sb, c, until, at_command, depth);
            match round.0 {
                Ok(Some((next, d))) => {
                    if advanced(s, st, round.1) {
                        lemma_command_list_loop_ends(s, round.1, until, next, d);
                    }
                },
                _ => {},
            }
        },
    }
}

/// A command list that is read without error ends at the end of the input
/// when it runs to the end, and just after the `)` that closes it otherwise;
/// an input that ends before that `)` is an error.
pub proof fn command_list_ends_well(s: Seq<char>, st: ScanState, until: Until)
    requires
        0 <= st.pos <= s.len(),
    ensures
        list_ends_well(s, scan_command_list(s, st, until), until),
{
    lemma_command_list_loop_ends(s, st, until, true, 0);
}

/// More substitutions nested than `MAX_NESTING` are `TooDeep`, and leave the
/// state as it was.
pub proof fn nesting_beyond_the_limit_is_too_deep(s: Seq<char>, st: ScanState, until: Until)
    requires
        st.nesting > MAX_NESTING,
    ensures
        scan_commands(s, st, until) == (Err::<(), ParseError>(ParseError::TooDeep), st),
        scan_nested_arithmetic(s, st) == (Err::<(), ParseError>(ParseError::TooDeep), st),
        scan_nested_parameter(s, st) == (Err::<(), ParseError>(ParseError::TooDeep), st),
{
}

/// The rounds of `scan_command_list`. `at_command` says whether the next word
/// is in command position; `depth` counts the open parentheses.
pub open spec fn command_list_loop(
    s: Seq<char>,
    st: ScanState,
    until: Until,
    at_command: bool,
    depth: int,
) -> (Result<(), ParseError>, ScanState)
    decreases s.len() - st.pos, 9int,
{
    let b = blanks_end(s, st.pos);
    proof {
        lemma_blanks_end(s, st.pos);
    }
    let sb = with_pos(st, b);
    match at(s, b) {
        None => (
            if until == Until::End {
                Ok(())
            } else {
                Err(ParseError::Unparsable)
            },
            sb,
        ),
        Some(c) => {
            let round = command_round(s, sb, c, until, at_command, depth);
            match round.0 {
                Err(e) => (Err(e), round.1),
                Ok(None) => (Ok(()), round.1),
                Ok(Some((next, d))) => if advanced(s, st, round.1) {
                    command_list_loop(s, round.1, until, next, d)
                } else {
                    (Err(ParseError::Unparsable), round.1)
                },
            }
        },
    }
}

/// One round of a command list, at the character `c` that stands at `st.pos`:
/// the state after it and, for the next round, whether a word is in command
/// position and how many parentheses are open; `None` where the list ends.
pub open spec fn command_round(
    s: Seq<char>,
    st: ScanState,
    c: char,
    until: Until,
    at_command: bool,
    depth: int,
) -> (Result<Option<(bool, int)>, ParseError>, ScanState)
    decreases s.len() - st.pos, 8int,
{
    let b = st.pos;
    if c == '\n' {
        (
            Ok(Some((true, depth))),
            ScanState { pos: heredocs_end(s, b + 1, st.heredocs), heredocs: Seq::empty(), ..st },
        )
    } else if c == '#' {
        (Ok(Some((at_command, depth))), with_pos(st, comment_end(s, b)))
    } else if c == '&' && at(s, b + 1) == Some('>') {
        let out = scan_redirection(s, st);
        (
            match out.0 {
                Ok(_) => Ok(Some((at_command, depth))),
                Err(e) => Err(e),
            },
            out.1,
        )
    } else if is_operator_char(c) {
        (Ok(Some((true, depth))), with_pos(st, operator_end(s, b)))
    } else if c == '(' && at_command && at(s, b + 1) == Some('(') {
        let out = scan_nested_arithmetic(s, with_pos(st, b + 2));
        (
            match out.0 {
                Ok(_) => Ok(Some((false, depth))),
                Err(e) => Err(e),
            },
            out.1,
        )
    } else if c == '(' {
        (Ok(Some((true, depth + 1))), with_pos(st, b + 1))
    } else if c == ')' && depth == 0 && until == Until::CloseParen {
        (Ok(None), with_pos(st, b + 1))
    } else if c == ')' {
        (Ok(Some((true, if depth > 0 { depth - 1 } else { 0 }))), with_pos(st, b + 1))
    } else if c == '<' || c == '>' {
        let out = scan_redirection(s, st);
        (
            match out.0 {
                Ok(_) => Ok(Some((at_command, depth))),
                Err(e) => Err(e),
            },
            out.1,
        )
    } else {
        let out = scan_word_or_redirection(s, st, at_command);
        (
            match out.0 {
                Ok(next) => Ok(Some((next, depth))),
                Err(e) => Err(e),
            },
            out.1,
        )
    }
}

/// A word in command position or after it, or a redirection that starts with
/// a file descriptor number. The result says whether the next word is in
/// command position.
pub open spec fn scan_word_or_redirection(s: Seq<char>, st: ScanState, at_command: bool) -> (
    Result<bool, ParseError>,
    ScanState,
)
    decreases s.len() - st.pos, 7int,
{
    if fd_redirection_at(s, st.pos) {
        proof {
            lemma_run_end(s, st.pos, Run::Digit);
        }
        let out = scan_redirection(s, with_pos(st, digits_end(s, st.pos)));
        (
            match out.0 {
                Ok(_) => Ok(at_command),
                Err(e) => Err(e),
            },
            out.1,
        )
    } else {
        let out = scan_word(s, st);
        match out.0 {
            Err(e) => (Err(e), out.1),
            Ok(w) => {
                let st1 = out.1;
                if is_plain(w, seq!['{']) {
                    (Ok(true), st1)
                } else if !at_command {
                    (Ok(false), st1)
                } else if w.assignment == Some(true) {
                    if w.text.len() > 0 && w.text.last() == '=' && at(s, st1.pos) == Some('(') {
                        if forward(s, st, st1) {
                            let out2 = scan_array(s, st1);
                            (
                                match out2.0 {
                                    Ok(_) => Ok(true),
                                    Err(e) => Err(e),
                                },
                                out2.1,
                            )
                        } else {
                            (Err(ParseError::Unparsable), st1)
                        }
                    } else {
                        (Ok(true), st1)
                    }
                } else if !w.quoted && !w.expanded && is_reserved_prefix(w.text) {
                    (Ok(true), st1)
                } else if !w.expanded && names_gh(w.text) && st1.found is None {
                    (Ok(false), ScanState { found: Some(w.text), ..st1 })
                } else {
                    (Ok(false), st1)
                }
            },
        }
    }
}

/// A redirection: its operator, then a process substitution or a target word.
/// A heredoc operator adds a heredoc whose body starts on the next line.
pub open spec fn scan_redirection(s: Seq<char>, st: ScanState) -> (
    Result<(), ParseError>,
    ScanState,
)
    decreases s.len() - st.pos, 6int,
{
    let p = st.pos;
    if (at(s, p) == Some('<') || at(s, p) == Some('>')) && at(s, p + 1) == Some('(') {
        scan_commands(s, with_pos(st, p + 2), Until::CloseParen)
    } else {
        let o = redirection_operator_end(s, p);
        let operator = s.subrange(p, o);
        let q = if operator == seq!['>'] && at(s, o) == Some('|') {
            o + 1
        } else {
            o
        };
        let r = spaces_end(s, q);
        proof {
            lemma_run_end(s, p, Run::RedirectionChar);
            lemma_run_end(s, q, Run::SpaceOrTab);
        }
        match at(s, r) {
            None => (Ok(()), with_pos(st, r)),
            Some(c) => if metachar(c) {
                (Ok(()), with_pos(st, r))
            } else {
                let out = scan_word(s, with_pos(st, r));
                match out.0 {
                    Err(e) => (Err(e), out.1),
                    Ok(target) => if operator.len() >= 2 && operator[0] == '<' && operator[1] == '<'
                        && operator != seq!['<', '<', '<'] {
                        (
                            Ok(()),
                            ScanState {
                                heredocs: out.1.heredocs.push(
                                    HeredocModel {
                                        delimiter: target.text,
                                        strip_tabs: operator == seq!['<', '<', '-'],
                                    },
                                ),
                                ..out.1
                            },
                        )
                    } else {
                        (Ok(()), out.1)
                    },
                }
            },
        }
    }
}

/// An array assignment's value list, from its `(`.
pub open spec fn scan_array(s: Seq<char>, st: ScanState) -> (Result<(), ParseError>, ScanState)
    decreases s.len() - st.pos, 5int,
{
    if st.pos < s.len() {
        array_loop(s, with_pos(st, st.pos + 1))
    } else {
        (Err(ParseError::Unparsable), st)
    }
}

/// The rounds of an array assignment's value list.
pub open spec fn array_loop(s: Seq<char>, st: ScanState) -> (Result<(), ParseError>, ScanState)
    decreases s.len() - st.pos, 4int,
{
    let b = blanks_end(s, st.pos);
    proof {
        lemma_blanks_end(s, st.pos);
    }
    match at(s, b) {
        None => (Err(ParseError::Unparsable), with_pos(st, b)),
        Some(c) => if c == ')' {
            (Ok(()), with_pos(st, b + 1))
        } else if metachar(c) && c != '\n' {
            (Err(ParseError::Unparsable), with_pos(st, b))
        } else {
            let out: (Result<(), ParseError>, ScanState) = if c == '\n' {
                (Ok(()), with_pos(st, b + 1))
            } else if c == '#' {
                (Ok(()), with_pos(st, comment_end(s, b)))
            } else {
                let w = scan_word(s, with_pos(st, b));
                (
                    match w.0 {
                        Ok(_) => Ok(()),
                        Err(e) => Err(e),
                    },
                    w.1,
                )
            };
            match out.0 {
                Err(e) => (Err(e), out.1),
                Ok(_) => if advanced(s, st, out.1) {
                    array_loop(s, out.1)
                } else {
                    (Err(ParseError::Unparsable), out.1)
                },
            }
        },
    }
}

/// A word: characters up to the next metacharacter, with quoting and
/// expansions.
pub open spec fn scan_word(s: Seq<char>, st: ScanState) -> (
    Result<WordModel, ParseError>,
    ScanState,
)
    decreases s.len() - st.pos, 3int,
{
    word_loop(s, st, empty_word())
}

/// The rounds of a word.
pub open spec fn word_loop(s: Seq<char>, st: ScanState, w: WordModel) -> (
    Result<WordModel, ParseError>,
    ScanState,
)
    decreases s.len() - st.pos, 2int,
{
    match at(s, st.pos) {
        None => (Ok(w), st),
        Some(c) => if metachar(c) {
            (Ok(w), st)
        } else {
            let out = word_part(s, with_pos(st, st.pos + 1), c, w);
            match out.0 {
                Err(e) => (Err(e), out.1),
                Ok(_) => if advanced(s, st, out.1) {
                    word_loop(s, out.1, out.2)
                } else {
                    (Err(ParseError::Unparsable), out.1)
                },
            }
        },
    }
}

/// The part of a word that starts with the character `c`, from after `c`.
pub open spec fn word_part(s: Seq<char>, st: ScanState, c: char, w: WordModel) -> (
    Result<(), ParseError>,
    ScanState,
    WordModel,
)
    decreases s.len() - st.pos, 3int,
{
    if c == '\\' {
        let e = scan_escape(s, st, w);
        (Ok(()), e.0, e.1)
    } else if c == '\'' {
        scan_single_quoted(s, st, w)
    } else if c == '"' {
        scan_double_quoted(s, st, w)
    } else if c == '$' {
        scan_dollar(s, st, w)
    } else if c == '`' {
        scan_backquoted(s, st, w)
    } else if c == '=' {
        (Ok(()), st, push_equals(w))
    } else {
        (Ok(()), st, WordModel { text: w.text.push(c), ..w })
    }
}

/// An `=` in a word: the first one decides whether the word is an assignment.
pub open spec fn push_equals(w: WordModel) -> WordModel {
    let assignment = if w.assignment is None {
        Some(!w.quoted && !w.expanded && assignment_name(w.text))
    } else {
        w.assignment
    };
    WordModel { text: w.text.push('='), assignment, ..w }
}

/// A double-quoted string, from after the opening quote.
pub open spec fn scan_double_quoted(s: Seq<char>, st: ScanState, w: WordModel) -> (
    Result<(), ParseError>,
    ScanState,
    WordModel,
)
    decreases s.len() - st.pos, 2int,
{
    double_quoted_loop(s, st, WordModel { quoted: true, ..w })
}

/// The rounds of a double-quoted string.
pub open spec fn double_quoted_loop(s: Seq<char>, st: ScanState, w: WordModel) -> (
    Result<(), ParseError>,
    ScanState,
    WordModel,
)
    decreases s.len() - st.pos, 1int,
{
    match at(s, st.pos) {
        None => (Err(ParseError::Unparsable), st, w),
        Some(c) => {
            let st1 = with_pos(st, st.pos + 1);
            if c == '"' {
                (Ok(()), st1, w)
            } else {
                let out: (Result<(), ParseError>, ScanState, WordModel) = if c == '\\' {
                    let e = scan_double_quoted_escape(s, st1, w);
                    (Ok(()), e.0, e.1)
                } else if c == '$' && (at(s, st1.pos) == Some('"') || at(s, st1.pos) == Some(
                    '\'',
                )) {
                    (Ok(()), st1, WordModel { text: w.text.push('$'), ..w })
                } else if c == '$' {
                    scan_dollar(s, st1, w)
                } else if c == '`' {
                    scan_backquoted(s, st1, w)
                } else {
                    (Ok(()), st1, WordModel { text: w.text.push(c), ..w })
                };
                match out.0 {
                    Err(e) => (Err(e), out.1, out.2),
                    Ok(_) => if advanced(s, st, out.1) {
                        double_quoted_loop(s, out.1, out.2)
                    } else {
                        (Err(ParseError::Unparsable), out.1, out.2)
                    },
                }
            }
        },
    }
}

/// What follows a `$`, from after the `$`.
pub open spec fn scan_dollar(s: Seq<char>, st: ScanState, w: WordModel) -> (
    Result<(), ParseError>,
    ScanState,
    WordModel,
)
    decreases s.len() - st.pos, 0int,
{
    let p = st.pos;
    let ex = WordModel { expanded: true, ..w };
    match at(s, p) {
        None => (Ok(()), st, WordModel { text: w.text.push('$'), ..w }),
        Some(c) => if c == '\'' {
            scan_ansi_c_quoted(s, with_pos(st, p + 1), w)
        } else if c == '"' {
            scan_double_quoted(s, with_pos(st, p + 1), w)
        } else if c == '(' && at(s, p + 1) == Some('(') {
            let out = scan_nested_arithmetic(s, with_pos(st, p + 2));
            (out.0, out.1, ex)
        } else if c == '(' {
            let out = scan_commands(s, with_pos(st, p + 1), Until::CloseParen);
            (out.0, out.1, ex)
        } else if c == '{' {
            let out = scan_nested_parameter(s, with_pos(st, p + 1));
            (out.0, out.1, ex)
        } else if is_alnum(c) || is_special_param(c) {
            let v = scan_variable_name(s, st, WordModel { text: w.text.push('$'), ..ex }, c);
            (Ok(()), v.0, v.1)
        } else {
            (Ok(()), st, WordModel { text: w.text.push('$'), ..w })
        },
    }
}

/// A `$'...'` string keeps the word's quoting as it found it.
proof fn lemma_ansi_c_loop_quoting(s: Seq<char>, st: ScanState, w: WordModel)
    ensures
        ansi_c_loop(s, st, w).2.quoted == w.quoted,
    decreases s.len() - st.pos,
{
    match at(s, st.pos) {
        None => {},
        Some(c) => if c == '\'' {
        } else if c == '\\' {
            match at(s, st.pos + 1) {
                None => {},
                Some(d) => lemma_ansi_c_loop_quoting(
                    s,
                    with_pos(st, st.pos + 2),
                    WordModel { text: w.text.push(ansi_c_escape(d)), ..w },
                ),
            }
        } else {
            lemma_ansi_c_loop_quoting(
                s,
                with_pos(st, st.pos + 1),
                WordModel { text: w.text.push(c), ..w },
            );
        },
    }
}

/// The rest of a double-quoted string leaves a quoted word quoted.
proof fn lemma_double_quoted_loop_quoting(s: Seq<char>, st: ScanState, w: WordModel)
    requires
        w.quoted,
    ensures
        double_quoted_loop(s, st, w).2.quoted,
    decreases s.len() - st.pos, 1int,
{
    match at(s, st.pos) {
        None => {},
        Some(c) => {
            let st1 = with_pos(st, st.pos + 1);
            if c != '"' {
                let out: (Result<(), ParseError>, ScanState, WordModel) = if c == '\\' {
                    let e = scan_double_quoted_escape(s, st1, w);
                    (Ok(()), e.0, e.1)
                } else if c == '$' && (at(s, st1.pos) == Some('"') || at(s, st1.pos) == Some(
                    '\'',
                )) {
                    (Ok(()), st1, WordModel { text: w.text.push('$'), ..w })
                } else if c == '$' {
                    lemma_scan_dollar_quoting(s, st1, w);
                    scan_dollar(s, st1, w)
                } else if c == '`' {
                    scan_backquoted(s, st1, w)
                } else {
                    (Ok(()), st1, WordModel { text: w.text.push(c), ..w })
                };
                assert(out.2.quoted);
                if out.0 is Ok && advanced(s, st, out.1) {
                    lemma_double_quoted_loop_quoting(s, out.1, out.2);
                }
            }
        },
    }
}

/// What follows a `$` leaves a quoted word quoted, and a `$'...'` or
/// `$"..."` string makes it quoted.
proof fn lemma_scan_dollar_quoting(s: Seq<char>, st: ScanState, w: WordModel)
    ensures
        w.quoted ==> scan_dollar(s, st, w).2.quoted,
        at(s, st.pos) == Some('\'') || at(s, st.pos) == Some('"') ==> scan_dollar(s, st, w).2.quoted,
    decreases s.len() - st.pos, 0int,
{
    let p = st.pos;
    match at(s, p) {
        None => {},
        Some(c) => if c == '\'' {
            lemma_ansi_c_loop_quoting(s, with_pos(st, p + 1), WordModel { quoted: true, ..w });
        } else if c == '"' {
            lemma_double_quoted_loop_quoting(
                s,
                with_pos(st, p + 1),
                WordModel { quoted: true, ..w },
            );
        },
    }
}

/// What the character after a `$` does to the word, with `st` just past the
/// `$`:
/// - a single or double quote opens a `$'...'` or `$"..."` string, and the
///   word is quoted;
/// - `(` or `{` opens a command substitution, arithmetic, or parameter
///   expansion, and the word is expanded;
/// - a letter, a digit, or one of `_@*#?$!-` names a parameter: the scan
///   succeeds, the word is expanded, and its text goes on with `$` and that
///   character;
/// - any other character, or the end of the input, is a literal `$`: the scan
///   succeeds, the text goes on with `$` alone, and the position stays.
pub proof fn dollar_cases(s: Seq<char>, st: ScanState, w: WordModel)
    requires
        0 <= st.pos <= s.len(),
    ensures
        ({
            let r = scan_dollar(s, st, w);
            match at(s, st.pos) {
                Some(c) => if c == '\'' || c == '"' {
                    r.2.quoted
                } else if c == '(' || c == '{' {
                    r.2.expanded
                } else if is_alnum(c) || is_special_param(c) {
                    &&& r.0 is Ok
                    &&& r.2.expanded
                    &&& w.text.len() + 2 <= r.2.text.len()
                    &&& r.2.text.subrange(0, w.text.len() + 2int) == w.text.push('$').push(c)
                } else {
                    &&& r.0 is Ok
                    &&& r.2.text == w.text.push('$')
                    &&& r.1 == st
                },
                None => {
                    &&& r.0 is Ok
                    &&& r.2.text == w.text.push('$')
                    &&& r.1 == st
                },
            }
        }),
{
    lemma_scan_dollar_quoting(s, st, w);
    match at(s, st.pos) {
        Some(c) => if is_alnum(c) || is_special_param(c) {
            let ex = WordModel { expanded: true, ..w };
            let t = w.text.push('$').push(c);
            if is_alpha(c) || c == '_' {
                let e = name_end(s, st.pos + 1);
                assert((t + s.subrange(st.pos + 1, e)).subrange(0, w.text.len() + 2int) =~= t);
            } else {
                assert(t.subrange(0, w.text.len() + 2int) =~= t);
            }
        },
        None => {},
    }
}

/// The rounds of arithmetic: up to the `))` outside inner parentheses.
pub open spec fn arithmetic_loop(s: Seq<char>, st: ScanState, depth: int) -> (
    Result<(), ParseError>,
    ScanState,
)
    decreases s.len() - st.pos, 8int,
{
    match at(s, st.pos) {
        None => (Err(ParseError::Unparsable), st),
        Some(c) => {
            let st1 = with_pos(st, st.pos + 1);
            if c == ')' && depth == 0 && at(s, st1.pos) == Some(')') {
                (Ok(()), with_pos(st, st.pos + 2))
            } else {
                let out: (Result<int, ParseError>, ScanState) = if c == '$' {
                    let d = scan_dollar(s, st1, empty_word());
                    (
                        match d.0 {
                            Ok(_) => Ok(depth),
                            Err(e) => Err(e),
                        },
                        d.1,
                    )
                } else if c == '`' {
                    let d = scan_backquoted(s, st1, empty_word());
                    (
                        match d.0 {
                            Ok(_) => Ok(depth),
                            Err(e) => Err(e),
                        },
                        d.1,
                    )
                } else if c == '(' {
                    (Ok(depth + 1), st1)
                } else if c == ')' {
                    (Ok(if depth > 0 { depth - 1 } else { 0 }), st1)
                } else {
                    (Ok(depth), st1)
                };
                match out.0 {
                    Err(e) => (Err(e), out.1),
                    Ok(d) => if advanced(s, st, out.1) {
                        arithmetic_loop(s, out.1, d)
                    } else {
                        (Err(ParseError::Unparsable), out.1)
                    },
                }
            }
        },
    }
}

/// The rounds of a parameter expansion: up to the `}` that closes it.
/// `scratch` collects the text of quoted parts, which nothing reads.
pub open spec fn parameter_loop(s: Seq<char>, st: ScanState, depth: int, scratch: WordModel) -> (
    Result<(), ParseError>,
    ScanState,
)
    decreases s.len() - st.pos, 8int,
{
    if depth <= 0 {
        (Ok(()), st)
    } else {
        match at(s, st.pos) {
            None => (Err(ParseError::Unparsable), st),
            Some(c) => {
                let st1 = with_pos(st, st.pos + 1);
                let out: (Result<int, ParseError>, ScanState, WordModel) = if c == '{' {
                    (Ok(depth + 1), st1, scratch)
                } else if c == '}' {
                    (Ok(depth - 1), st1, scratch)
                } else if c == '\\' {
                    let e = scan_escape(s, st1, scratch);
                    (Ok(depth), e.0, e.1)
                } else if c == '\'' || c == '"' || c == '$' || c == '`' {
                    let q = if c == '\'' {
                        scan_single_quoted(s, st1, scratch)
                    } else if c == '"' {
                        scan_double_quoted(s, st1, scratch)
                    } else if c == '$' {
                        scan_dollar(s, st1, scratch)
                    } else {
                        scan_backquoted(s, st1, scratch)
                    };
                    (
                        match q.0 {
                            Ok(_) => Ok(depth),
                            Err(e) => Err(e),
                        },
                        q.1,
                        q.2,
                    )
                } else {
                    (Ok(depth), st1, scratch)
                };
                match out.0 {
                    Err(e) => (Err(e), out.1),
                    Ok(d) => if advanced(s, st, out.1) {
                        parameter_loop(s, out.1, d, out.2)
                    } else {
                        (Err(ParseError::Unparsable), out.1)
                    },
                }
            },
        }
    }
}

/// A backquoted command substitution, from after the opening backquote. The
/// command is scanned on its own, one nesting level deeper; a direct
/// invocation in it counts when none was found before.
pub open spec fn scan_backquoted(s: Seq<char>, st: ScanState, w: WordModel) -> (
    Result<(), ParseError>,
    ScanState,
    WordModel,
)
    decreases s.len() - st.pos, 0int,
{
    let w1 = WordModel { expanded: true, ..w };
    if st.pos < 0 {
        (Err(ParseError::Unparsable), st, w1)
    } else {
        match backquote_body(s, st.pos, Seq::empty()) {
            None => (Err(ParseError::Unparsable), with_pos(st, s.len() as int), w1),
            Some((inner, e)) => {
                proof {
                    lemma_backquote_body(s, st.pos, Seq::empty());
                }
                let out = scan_commands(inner, nested_state(st), Until::End);
                match out.0 {
                    Err(err) => (Err(err), with_pos(st, e), w1),
                    Ok(_) => (
                        Ok(()),
                        ScanState {
                            pos: e,
                            found: if st.found is None {
                                out.1.found
                            } else {
                                st.found
                            },
                            ..st
                        },
                        w1,
                    ),
                }
            },
        }
    }
}

/// The first direct invocation of the GitHub CLI in a command line, or why
/// the command line could not be checked.
pub open spec fn direct_gh(s: Seq<char>) -> Result<Option<Seq<char>>, ParseError> {
    let out = scan_commands(s, start_state(0), Until::End);
    match out.0 {
        Ok(_) => Ok(out.1.found),
        Err(e) => Err(e),
    }
}


// ---------------------------------------------------------------------------
// Laws of quoting and substitution
// ---------------------------------------------------------------------------
/// A character that a double-quoted string takes as it is: anything but `"`,
/// `\`, `$`, and a backquote.
pub open spec fn literal_in_double_quotes(c: char) -> bool {
    c != '"' && c != '\\' && c != '$' && c != '`'
}

/// Double quotes take the characters up to their closing quote as they are
/// when none of them is special there.
proof fn lemma_double_quoted_literal(s: Seq<char>, st: ScanState, w: WordModel, e: int)
    requires
        0 <= st.pos <= e < s.len(),
        s[e] == '"',
        forall|i: int| st.pos <= i < e ==> literal_in_double_quotes(#[trigger] s[i]),
    ensures
        double_quoted_loop(s, st, w) == (
            Ok::<(), ParseError>(()),
            with_pos(st, e + 1),
            WordModel { text: w.text + s.subrange(st.pos, e), ..w },
        ),
    decreases e - st.pos,
{
    if st.pos < e {
        let c = s[st.pos];
        assert(literal_in_double_quotes(c));
        let w1 = WordModel { text: w.text.push(c), ..w };
        lemma_double_quoted_literal(s, with_pos(st, st.pos + 1), w1, e);
        assert(w1.text + s.subrange(st.pos + 1, e) =~= w.text + s.subrange(st.pos, e));
    } else {
        assert(w.text + s.subrange(st.pos, e) =~= w.text);
    }
}

/// A double-quoted string whose characters up to the closing `"` at `e` are
/// none of `"`, `\`, `$`, and a backquote makes the word quoted, adds those
/// characters to it as they are, and ends just after that `"`.
pub proof fn double_quotes_take_plain_text_literally(s: Seq<char>, st: ScanState, w: WordModel, e: int)
    requires
        0 <= st.pos <= e < s.len(),
        s[e] == '"',
        forall|i: int| st.pos <= i < e ==> literal_in_double_quotes(#[trigger] s[i]),
    ensures
        scan_double_quoted(s, st, w) == (
            Ok::<(), ParseError>(()),
            with_pos(st, e + 1),
            WordModel { text: w.text + s.subrange(st.pos, e), quoted: true, ..w },
        ),
{
    lemma_double_quoted_literal(s, st, WordModel { quoted: true, ..w }, e);
}

/// A backslash inside double quotes: before `$`, a backquote, `"`, or `\` it
/// is dropped and the character is taken as it is, so an escaped `"` does
/// not end the string; before a newline both go; before any other character
/// the backslash stays in the word; at the end of the input the string is
/// not closed.
pub proof fn double_quoted_backslash(s: Seq<char>, st: ScanState, w: WordModel)
    requires
        0 <= st.pos < s.len(),
        s[st.pos] == '\\',
    ensures
        st.pos + 1 < s.len() && (s[st.pos + 1] == '$' || s[st.pos + 1] == '`' || s[st.pos + 1]
            == '"' || s[st.pos + 1] == '\\') ==> double_quoted_loop(s, st, w) == double_quoted_loop(
            s,
            with_pos(st, st.pos + 2),
            WordModel { text: w.text.push(s[st.pos + 1]), ..w },
        ),
        st.pos + 1 < s.len() && s[st.pos + 1] == '\n' ==> double_quoted_loop(s, st, w)
            == double_quoted_loop(s, with_pos(st, st.pos + 2), w),
        st.pos + 1 < s.len() && !(s[st.pos + 1] == '$' || s[st.pos + 1] == '`' || s[st.pos + 1]
            == '"' || s[st.pos + 1] == '\\' || s[st.pos + 1] == '\n') ==> double_quoted_loop(
            s,
            st,
            w,
        ) == double_quoted_loop(
            s,
            with_pos(st, st.pos + 1),
            WordModel { text: w.text.push('\\'), ..w },
        ),
        st.pos + 1 == s.len() ==> double_quoted_loop(s, st, w).0 == Err::<(), ParseError>(
            ParseError::Unparsable,
        ),
{
    let st1 = with_pos(st, st.pos + 1);
    if st.pos + 1 == s.len() {
        let w1 = WordModel { text: w.text.push('\\'), ..w };
        assert(double_quoted_loop(s, st1, w1).0 == Err::<(), ParseError>(ParseError::Unparsable));
    }
}

/// A backquoted command substitution, inside double quotes as in a plain
/// word: the command between the backquotes (with `` \` ``, `\\`, and `\$`
/// unescaped) is scanned as a command list one nesting level deeper; when it
/// scans, the direct invocation found in it counts if none was found before,
/// the word is expanded, and the string or word goes on after the closing
/// backquote; when it does not, neither does the string or word; an unclosed
/// backquote is not complete.
pub proof fn backquotes_are_scanned_as_commands(s: Seq<char>, st: ScanState, w: WordModel)
    requires
        0 <= st.pos < s.len(),
        s[st.pos] == '`',
    ensures
        match backquote_body(s, st.pos + 1, Seq::empty()) {
            None => double_quoted_loop(s, st, w).0 == Err::<(), ParseError>(ParseError::Unparsable)
                && word_loop(s, st, w).0 == Err::<WordModel, ParseError>(ParseError::Unparsable),
            Some((inner, e)) => {
                let out = scan_commands(inner, start_state(st.nesting), Until::End);
                let after = ScanState {
                    pos: e,
                    found: if st.found is None {
                        out.1.found
                    } else {
                        st.found
                    },
                    ..st
                };
                let w1 = WordModel { expanded: true, ..w };
                match out.0 {
                    Ok(_) => double_quoted_loop(s, st, w) == double_quoted_loop(s, after, w1)
                        && word_loop(s, st, w) == word_loop(s, after, w1),
                    Err(err) => double_quoted_loop(s, st, w).0 == Err::<(), ParseError>(err)
                        && word_loop(s, st, w).0 == Err::<WordModel, ParseError>(err),
                }
            },
        },
{
    let st1 = with_pos(st, st.pos + 1);
    lemma_backquote_body(s, st.pos + 1, Seq::empty());
    let b = scan_backquoted(s, st1, w);
    assert(word_part(s, st1, '`', w) == b);
    match backquote_body(s, st.pos + 1, Seq::empty()) {
        None => {
            assert(b.0 == Err::<(), ParseError>(ParseError::Unparsable));
        },
        Some((inner, e)) => {
            let out = scan_commands(inner, start_state(st.nesting), Until::End);
            assert(nested_state(st1) == start_state(st.nesting));
            let after = ScanState {
                pos: e,
                found: if st.found is None {
                    out.1.found
                } else {
                    st.found
                },
                ..st
            };
            match out.0 {
                Ok(_) => {
                    assert(b.0 is Ok);
                    assert(b.1 == after);
                    assert(advanced(s, st, b.1));
                },
                Err(err) => {
                    assert(b.0 == Err::<(), ParseError>(err));
                },
            }
        },
    }
}

/// A `$'...'` string whose characters up to the closing `'` at `e` are
/// neither `'` nor `\` adds them to the word as they are and ends just after
/// that `'`.
pub proof fn ansi_c_strings_take_plain_text_literally(s: Seq<char>, st: ScanState, w: WordModel, e: int)
    requires
        0 <= st.pos <= e < s.len(),
        s[e] == '\'',
        forall|i: int| st.pos <= i < e ==> #[trigger] s[i] != '\'' && s[i] != '\\',
    ensures
        ansi_c_loop(s, st, w) == (
            Ok::<(), ParseError>(()),
            with_pos(st, e + 1),
            WordModel { text: w.text + s.subrange(st.pos, e), ..w },
        ),
    decreases e - st.pos,
{
    if st.pos < e {
        let c = s[st.pos];
        let w1 = WordModel { text: w.text.push(c), ..w };
        ansi_c_strings_take_plain_text_literally(s, with_pos(st, st.pos + 1), w1, e);
        assert(w1.text + s.subrange(st.pos + 1, e) =~= w.text + s.subrange(st.pos, e));
    } else {
        assert(w.text + s.subrange(st.pos, e) =~= w.text);
    }
}

/// In a `$'...'` string a backslash escapes the next character, a `'`
/// included, which then does not end the string: the word gets a newline
/// for `n`, a tab for `t`, and the character itself otherwise; a backslash at
/// the end of the input leaves the string unclosed.
pub proof fn ansi_c_backslash_escapes_the_next_character(s: Seq<char>, st: ScanState, w: WordModel)
    requires
        0 <= st.pos < s.len(),
        s[st.pos] == '\\',
    ensures
        st.pos + 1 < s.len() ==> ansi_c_loop(s, st, w) == ansi_c_loop(
            s,
            with_pos(st, st.pos + 2),
            WordModel {
                text: w.text.push(
                    if s[st.pos + 1] == 'n' {
                        '\n'
                    } else if s[st.pos + 1] == 't' {
                        '\t'
                    } else {
                        s[st.pos + 1]
                    },
                ),
                ..w
            },
        ),
        st.pos + 1 == s.len() ==> ansi_c_loop(s, st, w).0 == Err::<(), ParseError>(
            ParseError::Unparsable,
        ),
{
}

/// A here-string `<<<` redirects as `<` does: it adds no heredoc, so the line
/// after it is read as commands.
pub proof fn here_strings_add_no_heredoc(s: Seq<char>, st: ScanState)
    requires
        0 <= st.pos,
        st.pos + 3 <= s.len(),
        s[st.pos] == '<',
        s[st.pos + 1] == '<',
        s[st.pos + 2] == '<',
        st.pos + 3 < s.len() ==> !is_redirection_char(s[st.pos + 3]) && s[st.pos + 3] != '(',
    ensures
        scan_redirection(s, st) == scan_redirection(s, with_pos(st, st.pos + 2)),
{
    let p = st.pos;
    assert(run_end(s, p + 3, Run::RedirectionChar) == p + 3);
    assert(run_end(s, p + 2, Run::RedirectionChar) == p + 3);
    assert(run_end(s, p + 1, Run::RedirectionChar) == p + 3);
    assert(run_end(s, p, Run::RedirectionChar) == p + 3);
    assert(s.subrange(p, p + 3) =~= seq!['<', '<', '<']);
    assert(s.subrange(p + 2, p + 3) =~= seq!['<']);
    assert(seq!['<', '<', '<'] != seq!['>']) by {
        assert(seq!['<', '<', '<'].len() != seq!['>'].len());
    }
    assert(seq!['<'] != seq!['>']) by {
        assert(seq!['<'][0] != seq!['>'][0]);
    }
}


/// A character that a plain word may hold: no metacharacter, quote,
/// backslash, `$`, backquote, `=`, or `#`.
pub open spec fn word_char(c: char) -> bool {
    !metachar(c) && c != '\\' && c != '\'' && c != '"' && c != '$' && c != '`' && c != '='
        && c != '#'
}

/// The reserved words after which the next word is a command: `!`, `if`,
/// `then`, `else`, `elif`, `while`, `until`, `do`, and `time`.
pub open spec fn reserved_words() -> Seq<Seq<char>> {
    seq![
        seq!['!'],
        seq!['i', 'f'],
        seq!['t', 'h', 'e', 'n'],
        seq!['e', 'l', 's', 'e'],
        seq!['e', 'l', 'i', 'f'],
        seq!['w', 'h', 'i', 'l', 'e'],
        seq!['u', 'n', 't', 'i', 'l'],
        seq!['d', 'o'],
        seq!['t', 'i', 'm', 'e'],
    ]
}

/// The end of the word characters that start at `p`.
spec fn word_end(s: Seq<char>, p: int) -> int
    decreases s.len() - p,
{
    if 0 <= p < s.len() && word_char(s[p]) {
        word_end(s, p + 1)
    } else {
        p
    }
}

proof fn lemma_word_end(s: Seq<char>, p: int)
    requires
        0 <= p <= s.len(),
    ensures
        p <= word_end(s, p) <= s.len(),
        forall|i: int| p <= i < word_end(s, p) ==> word_char(#[trigger] s[i]),
        word_end(s, p) == s.len() || !word_char(s[word_end(s, p)]),
    decreases s.len() - p,
{
    if p < s.len() && word_char(s[p]) {
        lemma_word_end(s, p + 1);
    }
}

/// A word of plain characters is its text, neither quoted nor expanded.
proof fn lemma_plain_word_loop(s: Seq<char>, st: ScanState, w: WordModel, e: int)
    requires
        0 <= st.pos <= e <= s.len(),
        forall|i: int| st.pos <= i < e ==> word_char(#[trigger] s[i]),
        e == s.len() || metachar(s[e]),
    ensures
        word_loop(s, st, w) == (
            Ok::<WordModel, ParseError>(WordModel { text: w.text + s.subrange(st.pos, e), ..w }),
            with_pos(st, e),
        ),
    decreases e - st.pos,
{
    if st.pos < e {
        let c = s[st.pos];
        assert(word_char(c));
        let st1 = with_pos(st, st.pos + 1);
        let w1 = WordModel { text: w.text.push(c), ..w };
        assert(word_part(s, st1, c, w) == (Ok::<(), ParseError>(()), st1, w1));
        assert(advanced(s, st, st1));
        lemma_plain_word_loop(s, st1, w1, e);
        assert(w1.text + s.subrange(st.pos + 1, e) =~= w.text + s.subrange(st.pos, e));
        assert(word_loop(s, st, w) == word_loop(s, st1, w1));
    } else {
        assert(w.text + s.subrange(st.pos, e) =~= w.text);
        assert(WordModel { text: w.text + s.subrange(st.pos, e), ..w } == w);
        assert(with_pos(st, e) == st);
        assert(word_loop(s, st, w) == (Ok::<WordModel, ParseError>(w), st));
    }
}

/// A plain word that a space or the end of the input ends, in a round of a
/// command list.
proof fn lemma_plain_word_round(s: Seq<char>, st: ScanState, at_command: bool, depth: int)
    requires
        0 <= st.pos < s.len(),
        word_char(s[st.pos]),
        word_end(s, st.pos) == s.len() || s[word_end(s, st.pos)] == ' ',
    ensures
        ({
            let e = word_end(s, st.pos);
            let t = s.subrange(st.pos, e);
            let next = if t == seq!['{'] {
                true
            } else if !at_command {
                false
            } else {
                is_reserved_prefix(t)
            };
            let found = if at_command && t != seq!['{'] && !is_reserved_prefix(t) && names_gh(t)
                && st.found is None {
                Some(t)
            } else {
                st.found
            };
            command_round(s, st, s[st.pos], Until::End, at_command, depth) == (
                Ok::<Option<(bool, int)>, ParseError>(Some((next, depth))),
                ScanState { pos: e, found, ..st },
            )
        }),
{
    let p = st.pos;
    lemma_word_end(s, p);
    let e = word_end(s, p);
    lemma_plain_word_loop(s, st, empty_word(), e);
    assert(empty_word().text + s.subrange(p, e) =~= s.subrange(p, e));
    lemma_run_end(s, p, Run::Digit);
    let d = digits_end(s, p);
    if d > p {
        if d < e {
            assert(word_char(s[d]));
        } else if d > e {
            assert(keeps(Run::Digit, s[e]));
        }
    }
    assert(!fd_redirection_at(s, p));
}

/// A command list of plain words and spaces scans to the end, and keeps a
/// direct invocation found before.
proof fn lemma_plain_rest(s: Seq<char>, st: ScanState, at_command: bool, depth: int)
    requires
        0 <= st.pos <= s.len(),
        st.found is Some,
        forall|i: int| st.pos <= i < s.len() ==> word_char(#[trigger] s[i]) || s[i] == ' ',
    ensures
        command_list_loop(s, st, Until::End, at_command, depth).0 is Ok,
        command_list_loop(s, st, Until::End, at_command, depth).1.found == st.found,
    decreases s.len() - st.pos,
{
    let b = blanks_end(s, st.pos);
    lemma_spaces_end(s, st.pos);
    lemma_blanks_end(s, st.pos);
    if b < s.len() {
        let sb = with_pos(st, b);
        assert(word_char(s[b]));
        lemma_word_end(s, b);
        let e = word_end(s, b);
        if e < s.len() {
            assert(word_char(s[e]) || s[e] == ' ');
        }
        lemma_plain_word_round(s, sb, at_command, depth);
        let round = command_round(s, sb, s[b], Until::End, at_command, depth);
        assert(advanced(s, st, round.1));
        match round.0 {
            Ok(Some((next, d))) => {
                lemma_plain_rest(s, round.1, next, d);
            },
            _ => {},
        }
    }
}

/// Over spaces and word characters, the blanks end at the first word
/// character or the end of the input.
proof fn lemma_spaces_end(s: Seq<char>, p: int)
    requires
        0 <= p <= s.len(),
        forall|i: int| p <= i < s.len() ==> word_char(#[trigger] s[i]) || s[i] == ' ',
    ensures
        p <= blanks_end(s, p) <= s.len(),
        forall|i: int| p <= i < blanks_end(s, p) ==> #[trigger] s[i] == ' ',
        blanks_end(s, p) < s.len() ==> word_char(s[blanks_end(s, p)]),
    decreases s.len() - p,
{
    if p < s.len() {
        if s[p] == ' ' {
            lemma_spaces_end(s, p + 1);
        } else {
            assert(word_char(s[p]));
        }
    }
}

/// No reserved prefix names the GitHub CLI.
proof fn lemma_reserved_prefixes_are_not_gh(t: Seq<char>)
    ensures
        is_reserved_prefix(t) ==> !names_gh(t),
{
    lemma_reserved_words_are_not_gh(0);
    lemma_reserved_words_are_not_gh(1);
    lemma_reserved_words_are_not_gh(2);
    lemma_reserved_words_are_not_gh(3);
    lemma_reserved_words_are_not_gh(4);
    lemma_reserved_words_are_not_gh(5);
    lemma_reserved_words_are_not_gh(6);
    lemma_reserved_words_are_not_gh(7);
    lemma_reserved_words_are_not_gh(8);
}

/// A word with no path separator is its own last segment.
proof fn lemma_last_segment_whole(w: Seq<char>, i: int)
    requires
        0 <= i <= w.len(),
        forall|j: int| 0 <= j < w.len() ==> !is_path_separator(#[trigger] w[j]),
    ensures
        last_segment_start(w, i) == 0,
    decreases i,
{
    if i > 0 {
        lemma_last_segment_whole(w, i - 1);
    }
}

/// No reserved word names the GitHub CLI.
proof fn lemma_reserved_words_are_not_gh(k: int)
    requires
        0 <= k < 9,
    ensures
        !names_gh(reserved_words()[k]),
        reserved_words()[k].len() > 0,
        forall|i: int|
            0 <= i < reserved_words()[k].len() ==> word_char(#[trigger] reserved_words()[k][i]),
        is_reserved_prefix(reserved_words()[k]),
{
    let r = reserved_words()[k];
    lemma_last_segment_whole(r, r.len() as int);
    assert(last_segment(r) =~= r);
    if r.len() == 2 {
        assert(lower(r[0]) != lower(seq!['g', 'h'][0]));
    }
}

#[verifier::rlimit(40)]
/// A reserved word or `{`, a space, a plain word `g` that names the GitHub
/// CLI, and then plain words and spaces: `g` is the direct invocation found.
proof fn lemma_prefix_keeps_command_position(r: Seq<char>, g: Seq<char>, rest: Seq<char>)
    requires
        r.len() > 0,
        forall|i: int| 0 <= i < r.len() ==> word_char(#[trigger] r[i]),
        is_reserved_prefix(r) || r == seq!['{'],
        forall|i: int| 0 <= i < g.len() ==> word_char(#[trigger] g[i]),
        names_gh(g),
        forall|i: int| 0 <= i < rest.len() ==> word_char(#[trigger] rest[i]) || rest[i] == ' ',
        rest.len() > 0 ==> rest[0] == ' ',
    ensures
        direct_gh(r + seq![' '] + g + rest) == Ok::<
            Option<Seq<char>>,
            ParseError,
        >(Some(g)),
{
    let s = r + seq![' '] + g + rest;
    let n = r.len() as int;
    let m = g.len() as int;
    assert(m >= 2) by {
        lemma_segment_start_bounds(g, m);
    }
    assert forall|i: int| 0 <= i < s.len() implies word_char(#[trigger] s[i]) || s[i] == ' ' by {
        if i < n {
            assert(s[i] == r[i]);
        } else if i == n {
        } else if i < n + 1 + m {
            assert(s[i] == g[i - n - 1]);
        } else {
            assert(s[i] == rest[i - n - 1 - m]);
        }
    }
    assert(s.subrange(0, n) =~= r);
    assert(s.subrange(n + 1, n + 1 + m) =~= g);
    // the reserved word
    let st0 = ScanState { pos: 0, nesting: 1, found: None, heredocs: Seq::empty() };
    lemma_spaces_end(s, 0);
    assert(s[0] == r[0]);
    assert(blanks_end(s, 0) == 0);
    lemma_word_end(s, 0);
    assert(word_end(s, 0) == n) by {
        if word_end(s, 0) < n {
            assert(s[word_end(s, 0)] == r[word_end(s, 0)]);
        } else if word_end(s, 0) > n {
            assert(word_char(s[n]));
        }
    }
    lemma_plain_word_round(s, st0, true, 0);
    let st1 = ScanState { pos: n, ..st0 };
    assert(command_round(s, st0, s[0], Until::End, true, 0) == (
        Ok::<Option<(bool, int)>, ParseError>(Some((true, 0int))),
        st1,
    ));
    // the word that names the CLI
    lemma_spaces_end(s, n);
    assert(s[n + 1] == g[0]);
    assert(blanks_end(s, n) == n + 1);
    let sb = with_pos(st1, n + 1);
    lemma_word_end(s, n + 1);
    assert(word_end(s, n + 1) == n + 1 + m) by {
        let x = word_end(s, n + 1);
        if x < n + 1 + m {
            assert(s[x] == g[x - n - 1]);
        } else if x > n + 1 + m {
            assert(s[n + 1 + m] == rest[0]);
        }
    }
    if n + 1 + m < s.len() {
        assert(s[n + 1 + m] == rest[0]);
    }
    lemma_plain_word_round(s, sb, true, 0);
    assert(g != seq!['{']);
    lemma_reserved_prefixes_are_not_gh(g);
    let st2 = ScanState { pos: n + 1 + m, found: Some(g), ..st1 };
    assert(command_round(s, sb, s[n + 1], Until::End, true, 0) == (
        Ok::<Option<(bool, int)>, ParseError>(Some((false, 0int))),
        st2,
    ));
    // the rest
    lemma_plain_rest(s, st2, false, 0);
    assert(command_list_loop(s, st1, Until::End, true, 0) == command_list_loop(
        s,
        st2,
        Until::End,
        false,
        0,
    ));
    assert(command_list_loop(s, st0, Until::End, true, 0) == command_list_loop(
        s,
        st1,
        Until::End,
        true,
        0,
    ));
}

/// Each reserved word `!`, `if`, `then`, `else`, `elif`, `while`, `until`,
/// `do`, and `time` leaves the word after it in command position: in a
/// command line that is such a word, a space, a plain word `g` that names the
/// GitHub CLI, and then plain words and spaces, `g` is the direct invocation
/// found.
pub proof fn reserved_words_keep_command_position(k: int, g: Seq<char>, rest: Seq<char>)
    requires
        0 <= k < 9,
        forall|i: int| 0 <= i < g.len() ==> word_char(#[trigger] g[i]),
        names_gh(g),
        forall|i: int| 0 <= i < rest.len() ==> word_char(#[trigger] rest[i]) || rest[i] == ' ',
        rest.len() > 0 ==> rest[0] == ' ',
    ensures
        direct_gh(reserved_words()[k] + seq![' '] + g + rest) == Ok::<
            Option<Seq<char>>,
            ParseError,
        >(Some(g)),
{
    lemma_reserved_words_are_not_gh(k);
    lemma_prefix_keeps_command_position(reserved_words()[k], g, rest);
}

/// An opening brace `{` starts a group whose first word is a command: in
/// `{ g ...` with `g` a plain word naming the GitHub CLI, `g` is found.
pub proof fn a_brace_keeps_command_position(g: Seq<char>, rest: Seq<char>)
    requires
        forall|i: int| 0 <= i < g.len() ==> word_char(#[trigger] g[i]),
        names_gh(g),
        forall|i: int| 0 <= i < rest.len() ==> word_char(#[trigger] rest[i]) || rest[i] == ' ',
        rest.len() > 0 ==> rest[0] == ' ',
    ensures
        direct_gh(seq!['{', ' '] + g + rest) == Ok::<Option<Seq<char>>, ParseError>(Some(g)),
{
    assert(seq!['{', ' '] =~= seq!['{'] + seq![' ']);
    lemma_prefix_keeps_command_position(seq!['{'], g, rest);
}

/// The last segment starts within the word.
proof fn lemma_segment_start_bounds(w: Seq<char>, i: int)
    requires
        0 <= i <= w.len(),
    ensures
        0 <= last_segment_start(w, i) <= i,
    decreases i,
{
    if i > 0 && !is_path_separator(w[i - 1]) {
        lemma_segment_start_bounds(w, i - 1);
    }
}


/// A backslash outside quotes takes the next character literally and makes
/// the word quoted; an escaped newline joins the lines and adds nothing.
pub proof fn backslash_takes_the_next_character_literally(s: Seq<char>, st: ScanState, w: WordModel)
    requires
        0 <= st.pos,
        st.pos + 1 < s.len(),
        s[st.pos] == '\\',
    ensures
        s[st.pos + 1] != '\n' ==> word_loop(s, st, w) == word_loop(
            s,
            with_pos(st, st.pos + 2),
            WordModel { text: w.text.push(s[st.pos + 1]), quoted: true, ..w },
        ),
        s[st.pos + 1] == '\n' ==> word_loop(s, st, w) == word_loop(
            s,
            with_pos(st, st.pos + 2),
            WordModel { quoted: true, ..w },
        ),
{
    let st1 = with_pos(st, st.pos + 1);
    let e = scan_escape(s, st1, w);
    assert(e.0 == with_pos(st, st.pos + 2));
    assert(word_part(s, st1, '\\', w) == (Ok::<(), ParseError>(()), e.0, e.1));
    assert(advanced(s, st, e.0));
    assert(word_loop(s, st, w) == word_loop(s, e.0, e.1));
}

/// A comment runs to the end of its line, and nothing in it is scanned: the
/// command list goes on at the newline (or the end of the input) as if the
/// comment were not there.
pub proof fn comments_run_to_the_end_of_the_line(
    s: Seq<char>,
    st: ScanState,
    until: Until,
    at_command: bool,
    depth: int,
)
    requires
        0 <= st.pos <= s.len(),
        blanks_end(s, st.pos) < s.len(),
        s[blanks_end(s, st.pos)] == '#',
    ensures
        ({
            let b = blanks_end(s, st.pos);
            let e = comment_end(s, b);
            &&& b < e <= s.len()
            &&& e == s.len() || s[e] == '\n'
            &&& forall|i: int| b <= i < e ==> #[trigger] s[i] != '\n'
            &&& command_list_loop(s, st, until, at_command, depth) == command_list_loop(
                s,
                with_pos(st, e),
                until,
                at_command,
                depth,
            )
        }),
{
    let b = blanks_end(s, st.pos);
    lemma_blanks_end(s, st.pos);
    lemma_run_end(s, b, Run::NotNewline);
    let e = comment_end(s, b);
    assert(keeps(Run::NotNewline, s[b]));
    assert forall|i: int| b <= i < e implies #[trigger] s[i] != '\n' by {
        assert(keeps(Run::NotNewline, s[i]));
    }
    if e < s.len() {
        assert(!keeps(Run::NotNewline, s[e]));
    }
    let sb = with_pos(st, b);
    let round = command_round(s, sb, s[b], until, at_command, depth);
    assert(round == (Ok::<Option<(bool, int)>, ParseError>(Some((at_command, depth))), with_pos(st, e)));
    assert(advanced(s, st, round.1));
}

/// A control operator (`;`, `|`, `&`, and their runs such as `&&` and `||`,
/// but not `&>`) ends a command: the word after it is in command position.
pub proof fn operators_start_a_new_command(
    s: Seq<char>,
    st: ScanState,
    until: Until,
    at_command: bool,
    depth: int,
)
    requires
        0 <= st.pos <= s.len(),
        blanks_end(s, st.pos) < s.len(),
        is_operator_char(s[blanks_end(s, st.pos)]),
        !(s[blanks_end(s, st.pos)] == '&' && at(s, blanks_end(s, st.pos) + 1) == Some('>')),
    ensures
        command_list_loop(s, st, until, at_command, depth) == command_list_loop(
            s,
            with_pos(st, operator_end(s, blanks_end(s, st.pos))),
            until,
            true,
            depth,
        ),
{
    let b = blanks_end(s, st.pos);
    lemma_blanks_end(s, st.pos);
    lemma_run_end(s, b, Run::Operator);
    assert(keeps(Run::Operator, s[b]));
    let e = operator_end(s, b);
    let sb = with_pos(st, b);
    let round = command_round(s, sb, s[b], until, at_command, depth);
    assert(round == (Ok::<Option<(bool, int)>, ParseError>(Some((true, depth))), with_pos(st, e)));
    assert(advanced(s, st, round.1));
}

/// A command list of plain words without `{` and spaces, none of them in
/// command position, scans to the end and finds no new direct invocation.
proof fn lemma_plain_arguments(s: Seq<char>, st: ScanState, depth: int)
    requires
        0 <= st.pos <= s.len(),
        forall|i: int|
            st.pos <= i < s.len() ==> (word_char(#[trigger] s[i]) && s[i] != '{') || s[i] == ' ',
    ensures
        command_list_loop(s, st, Until::End, false, depth).0 is Ok,
        command_list_loop(s, st, Until::End, false, depth).1.found == st.found,
    decreases s.len() - st.pos,
{
    let b = blanks_end(s, st.pos);
    lemma_spaces_end(s, st.pos);
    lemma_blanks_end(s, st.pos);
    if b < s.len() {
        let sb = with_pos(st, b);
        lemma_word_end(s, b);
        let e = word_end(s, b);
        if e < s.len() {
            assert(word_char(s[e]) || s[e] == ' ');
        }
        lemma_plain_word_round(s, sb, false, depth);
        let t = s.subrange(b, e);
        assert(t != seq!['{']) by {
            assert(s[b] != '{');
            if t == seq!['{'] {
                assert(t[0] == s[b]);
            }
        }
        let round = command_round(s, sb, s[b], Until::End, false, depth);
        assert(advanced(s, st, round.1));
        lemma_plain_arguments(s, round.1, depth);
    }
}

/// A command line that starts with a plain word `g` naming the GitHub CLI,
/// followed by plain words and spaces, invokes it directly: `g` is found.
pub proof fn a_leading_gh_word_is_found(g: Seq<char>, rest: Seq<char>)
    requires
        forall|i: int| 0 <= i < g.len() ==> word_char(#[trigger] g[i]),
        names_gh(g),
        forall|i: int| 0 <= i < rest.len() ==> word_char(#[trigger] rest[i]) || rest[i] == ' ',
        rest.len() > 0 ==> rest[0] == ' ',
    ensures
        direct_gh(g + rest) == Ok::<Option<Seq<char>>, ParseError>(Some(g)),
{
    let s = g + rest;
    let m = g.len() as int;
    assert(m >= 2) by {
        lemma_segment_start_bounds(g, m);
    }
    assert forall|i: int| 0 <= i < s.len() implies word_char(#[trigger] s[i]) || s[i] == ' ' by {
        if i < m {
            assert(s[i] == g[i]);
        } else {
            assert(s[i] == rest[i - m]);
        }
    }
    assert(s.subrange(0, m) =~= g);
    let st0 = ScanState { pos: 0, nesting: 1, found: None, heredocs: Seq::empty() };
    lemma_spaces_end(s, 0);
    assert(s[0] == g[0]);
    assert(blanks_end(s, 0) == 0);
    lemma_word_end(s, 0);
    assert(word_end(s, 0) == m) by {
        let x = word_end(s, 0);
        if x < m {
            assert(s[x] == g[x]);
        } else if x > m {
            assert(s[m] == rest[0]);
        }
    }
    if m < s.len() {
        assert(s[m] == rest[0]);
    }
    lemma_plain_word_round(s, st0, true, 0);
    lemma_reserved_prefixes_are_not_gh(g);
    let st1 = ScanState { pos: m, found: Some(g), ..st0 };
    assert(command_round(s, st0, s[0], Until::End, true, 0) == (
        Ok::<Option<(bool, int)>, ParseError>(Some((false, 0int))),
        st1,
    ));
    lemma_plain_rest(s, st1, false, 0);
    assert(command_list_loop(s, st0, Until::End, true, 0) == command_list_loop(
        s,
        st1,
        Until::End,
        false,
        0,
    ));
}

/// The words after a command are its arguments: in a command line that
/// starts with a plain word that is neither a reserved word, nor `{`, nor a
/// name of the GitHub CLI, followed by plain words without `{` and spaces,
/// no direct invocation is found, even where an argument is `gh`.
pub proof fn arguments_are_not_invocations(c: Seq<char>, rest: Seq<char>)
    requires
        c.len() > 0,
        forall|i: int| 0 <= i < c.len() ==> word_char(#[trigger] c[i]),
        forall|k: int| 0 <= k < 9 ==> c != #[trigger] reserved_words()[k],
        c != seq!['{'],
        !names_gh(c),
        forall|i: int|
            0 <= i < rest.len() ==> (word_char(#[trigger] rest[i]) && rest[i] != '{') || rest[i]
                == ' ',
        rest.len() > 0 ==> rest[0] == ' ',
    ensures
        direct_gh(c + rest) == Ok::<Option<Seq<char>>, ParseError>(None),
{
    let s = c + rest;
    let m = c.len() as int;
    assert forall|i: int| 0 <= i < s.len() implies word_char(#[trigger] s[i]) || s[i] == ' ' by {
        if i < m {
            assert(s[i] == c[i]);
        } else {
            assert(s[i] == rest[i - m]);
        }
    }
    assert forall|i: int| m <= i < s.len() implies (word_char(#[trigger] s[i]) && s[i] != '{')
        || s[i] == ' ' by {
        assert(s[i] == rest[i - m]);
    }
    assert(s.subrange(0, m) =~= c);
    let st0 = ScanState { pos: 0, nesting: 1, found: None, heredocs: Seq::empty() };
    lemma_spaces_end(s, 0);
    assert(s[0] == c[0]);
    assert(blanks_end(s, 0) == 0);
    lemma_word_end(s, 0);
    assert(word_end(s, 0) == m) by {
        let x = word_end(s, 0);
        if x < m {
            assert(s[x] == c[x]);
        } else if x > m {
            assert(s[m] == rest[0]);
        }
    }
    if m < s.len() {
        assert(s[m] == rest[0]);
    }
    lemma_plain_word_round(s, st0, true, 0);
    assert(!is_reserved_prefix(c)) by {
        assert(c != reserved_words()[0]);
        assert(c != reserved_words()[1]);
        assert(c != reserved_words()[2]);
        assert(c != reserved_words()[3]);
        assert(c != reserved_words()[4]);
        assert(c != reserved_words()[5]);
        assert(c != reserved_words()[6]);
        assert(c != reserved_words()[7]);
        assert(c != reserved_words()[8]);
    }
    let st1 = ScanState { pos: m, ..st0 };
    assert(command_round(s, st0, s[0], Until::End, true, 0) == (
        Ok::<Option<(bool, int)>, ParseError>(Some((false, 0int))),
        st1,
    ));
    lemma_plain_arguments(s, st1, 0);
    assert(command_list_loop(s, st0, Until::End, true, 0) == command_list_loop(
        s,
        st1,
        Until::End,
        false,
        0,
    ));
}


/// Word characters make a word's text as they are.
proof fn lemma_plain_word_prefix(s: Seq<char>, st: ScanState, w: WordModel, e: int)
    requires
        0 <= st.pos <= e <= s.len(),
        forall|i: int| st.pos <= i < e ==> word_char(#[trigger] s[i]),
    ensures
        word_loop(s, st, w) == word_loop(
            s,
            with_pos(st, e),
            WordModel { text: w.text + s.subrange(st.pos, e), ..w },
        ),
    decreases e - st.pos,
{
    if st.pos < e {
        let c = s[st.pos];
        assert(word_char(c));
        let st1 = with_pos(st, st.pos + 1);
        let w1 = WordModel { text: w.text.push(c), ..w };
        assert(word_part(s, st1, c, w) == (Ok::<(), ParseError>(()), st1, w1));
        assert(advanced(s, st, st1));
        lemma_plain_word_prefix(s, st1, w1, e);
        assert(w1.text + s.subrange(st.pos + 1, e) =~= w.text + s.subrange(st.pos, e));
        assert(with_pos(st1, e) == with_pos(st, e));
    } else {
        assert(w.text + s.subrange(st.pos, e) =~= w.text);
        assert(WordModel { text: w.text + s.subrange(st.pos, e), ..w } == w);
        assert(with_pos(st, e) == st);
    }
}

/// After a space, a plain word naming the GitHub CLI in command position and
/// then plain words and spaces: the word is the direct invocation found.
proof fn lemma_gh_after_space(s: Seq<char>, st: ScanState, g: Seq<char>)
    requires
        0 <= st.pos,
        st.pos + 1 + g.len() <= s.len(),
        s[st.pos] == ' ',
        s.subrange(st.pos + 1, st.pos + 1 + g.len()) == g,
        st.pos + 1 + g.len() < s.len() ==> s[st.pos + 1 + g.len()] == ' ',
        forall|i: int| st.pos <= i < s.len() ==> word_char(#[trigger] s[i]) || s[i] == ' ',
        forall|i: int| 0 <= i < g.len() ==> word_char(#[trigger] g[i]),
        names_gh(g),
        st.found is None,
    ensures
        command_list_loop(s, st, Until::End, true, 0).0 is Ok,
        command_list_loop(s, st, Until::End, true, 0).1.found == Some(g),
{
    let n = st.pos;
    let m = g.len() as int;
    assert(m >= 2) by {
        lemma_segment_start_bounds(g, m);
    }
    lemma_spaces_end(s, n);
    assert(s[n + 1] == g[0]);
    assert(blanks_end(s, n) == n + 1);
    let sb = with_pos(st, n + 1);
    lemma_word_end(s, n + 1);
    assert(word_end(s, n + 1) == n + 1 + m) by {
        let x = word_end(s, n + 1);
        if x < n + 1 + m {
            assert(s[x] == g[x - n - 1]);
        } else if x > n + 1 + m {
            assert(word_char(s[n + 1 + m]));
        }
    }
    lemma_plain_word_round(s, sb, true, 0);
    assert(g != seq!['{']);
    lemma_reserved_prefixes_are_not_gh(g);
    let st2 = ScanState { pos: n + 1 + m, found: Some(g), ..st };
    assert(command_round(s, sb, s[n + 1], Until::End, true, 0) == (
        Ok::<Option<(bool, int)>, ParseError>(Some((false, 0int))),
        st2,
    ));
    lemma_plain_rest(s, st2, false, 0);
    assert(command_list_loop(s, st, Until::End, true, 0) == command_list_loop(
        s,
        st2,
        Until::End,
        false,
        0,
    ));
}

/// A word that assigns to a variable, in command position, leaves the next
/// word in command position.
#[verifier::rlimit(40)]
proof fn lemma_assignment_round(s: Seq<char>, a: Seq<char>, e: int)
    requires
        is_name(a),
        a.len() < e < s.len(),
        s.subrange(0, a.len() as int) == a,
        s[a.len() as int] == '=',
        forall|i: int| a.len() + 1 <= i < e ==> word_char(#[trigger] s[i]),
        s[e] == ' ',
    ensures
        command_round(
            s,
            ScanState { pos: 0, nesting: 1, found: None, heredocs: Seq::empty() },
            s[0],
            Until::End,
            true,
            0,
        ) == (
            Ok::<Option<(bool, int)>, ParseError>(Some((true, 0int))),
            ScanState { pos: e, nesting: 1, found: None, heredocs: Seq::empty() },
        ),
{
    let na = a.len() as int;
    let st0 = ScanState { pos: 0, nesting: 1, found: None, heredocs: Seq::empty() };
    assert forall|i: int| 0 <= i < na implies word_char(#[trigger] s[i]) by {
        assert(s[i] == s.subrange(0, na)[i]);
        assert(is_name_char(a[i]) || i == 0);
    }
    lemma_plain_word_prefix(s, st0, empty_word(), na);
    let w0 = WordModel { text: a, ..empty_word() };
    assert(empty_word().text + s.subrange(0, na) =~= a);
    lemma_run_end(a, 0, Run::NotOpenBracket);
    assert(run_end(a, 0, Run::NotOpenBracket) == na) by {
        let x = run_end(a, 0, Run::NotOpenBracket);
        if x < na {
            assert(is_name_char(a[x]) || x == 0);
        }
    }
    assert(a.take(na) =~= a);
    assert(assignment_target(a) == a) by {
        assert(a.last() == a[na - 1]);
        assert(is_name_char(a[na - 1]) || na - 1 == 0);
    }
    let w1 = push_equals(w0);
    assert(w1.assignment == Some(true));
    let st_eq = with_pos(st0, na);
    let st_v = with_pos(st0, na + 1);
    assert(word_part(s, st_v, '=', w0) == (Ok::<(), ParseError>(()), st_v, w1));
    assert(advanced(s, st_eq, st_v));
    assert(word_loop(s, st_eq, w0) == word_loop(s, st_v, w1));
    lemma_plain_word_loop(s, st_v, w1, e);
    let word = WordModel { text: w1.text + s.subrange(na + 1, e), ..w1 };
    let st1 = with_pos(st0, e);
    assert(scan_word(s, st0) == (Ok::<WordModel, ParseError>(word), st1));
    assert(word.text.len() == e);
    assert(word.text != seq!['{']) by {
        assert(word.text[na] == '=');
        if word.text == seq!['{'] {
            assert(na == 0);
        }
    }
    lemma_run_end(s, 0, Run::Digit);
    assert(s[0] == a[0]);
    assert(!is_digit(s[0])) by {
        assert(is_alpha(a[0]) || a[0] == '_');
    }
    assert(digits_end(s, 0) == 0);
    assert(!fd_redirection_at(s, 0));
    assert(scan_word_or_redirection(s, st0, true) == (Ok::<bool, ParseError>(true), st1));
}

/// A variable assignment before a command keeps the next word in command
/// position: in `a=v g ...`, with `a` a variable name, `v` plain, and `g` a
/// plain word naming the GitHub CLI, `g` is the direct invocation found.
pub proof fn assignments_keep_command_position(
    a: Seq<char>,
    v: Seq<char>,
    g: Seq<char>,
    rest: Seq<char>,
)
    requires
        is_name(a),
        forall|i: int| 0 <= i < v.len() ==> word_char(#[trigger] v[i]),
        forall|i: int| 0 <= i < g.len() ==> word_char(#[trigger] g[i]),
        names_gh(g),
        forall|i: int| 0 <= i < rest.len() ==> word_char(#[trigger] rest[i]) || rest[i] == ' ',
        rest.len() > 0 ==> rest[0] == ' ',
    ensures
        direct_gh(a + seq!['='] + v + seq![' '] + g + rest) == Ok::<
            Option<Seq<char>>,
            ParseError,
        >(Some(g)),
{
    let s = a + seq!['='] + v + seq![' '] + g + rest;
    let na = a.len() as int;
    let nv = v.len() as int;
    let m = g.len() as int;
    let e = na + 1 + nv;
    assert(s.subrange(0, na) =~= a);
    assert(s[na] == '=');
    assert forall|i: int| na + 1 <= i < e implies word_char(#[trigger] s[i]) by {
        assert(s[i] == v[i - na - 1]);
    }
    assert(s[e] == ' ');
    lemma_assignment_round(s, a, e);
    assert forall|i: int| e <= i < s.len() implies word_char(#[trigger] s[i]) || s[i] == ' ' by {
        if i == e {
        } else if i < e + 1 + m {
            assert(s[i] == g[i - e - 1]);
        } else {
            assert(s[i] == rest[i - e - 1 - m]);
        }
    }
    assert(s.subrange(e + 1, e + 1 + m) =~= g);
    if e + 1 + m < s.len() {
        assert(s[e + 1 + m] == rest[0]);
    }
    let st0 = ScanState { pos: 0, nesting: 1, found: None, heredocs: Seq::empty() };
    let st1 = with_pos(st0, e);
    assert(s[0] == a[0]);
    assert(!is_blank(s[0]) && s[0] != '\\') by {
        assert(is_alpha(a[0]) || a[0] == '_');
    }
    assert(blanks_end(s, 0) == 0);
    lemma_gh_after_space(s, st1, g);
    assert(command_list_loop(s, st0, Until::End, true, 0) == command_list_loop(
        s,
        st1,
        Until::End,
        true,
        0,
    ));
}


/// A command substitution `$(...)`, like a process substitution `<(...)` or
/// `>(...)`, is a command list up to its closing `)`, scanned one nesting
/// level deeper, so that a direct invocation in it is found; the word that
/// holds it is expanded.
pub proof fn substitutions_are_scanned_as_commands(s: Seq<char>, st: ScanState, w: WordModel)
    requires
        0 <= st.pos < s.len(),
        s[st.pos] == '(',
        at(s, st.pos + 1) != Some('('),
    ensures
        scan_dollar(s, st, w) == {
            let out = scan_commands(s, with_pos(st, st.pos + 1), Until::CloseParen);
            (out.0, out.1, WordModel { expanded: true, ..w })
        },
        st.pos >= 1 && (s[st.pos - 1] == '<' || s[st.pos - 1] == '>') ==> scan_redirection(
            s,
            with_pos(st, st.pos - 1),
        ) == scan_commands(s, with_pos(st, st.pos + 1), Until::CloseParen),
{
    if st.pos >= 1 && (s[st.pos - 1] == '<' || s[st.pos - 1] == '>') {
        let st0 = with_pos(st, st.pos - 1);
        assert(with_pos(st0, st0.pos + 2) == with_pos(st, st.pos + 1));
    }
}

} // verus!
