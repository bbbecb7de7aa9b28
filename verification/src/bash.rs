//! The executable scanner that finds direct invocations of the GitHub CLI in
//! a Bash command line. Each step is proved to compute the step of the same
//! name in `bash_model`.
use crate::bash_model::{
    command_list_ends_well, list_ends_well,
    advanced, ansi_c_loop, arithmetic_loop, array_loop, assignment_name, assignment_target, at,
    backquote_body, blanks_end, clean_line, command_list_loop, command_round, comment_end,
    direct_gh, double_quoted_loop, empty_word, eq_ignore_case, fd_redirection_at, heredoc_end,
    heredocs_end, is_alnum, is_alpha, is_name_char, is_plain, is_reserved_prefix, is_special_param,
    keeps, last_segment_start, lemma_run_end, lower, metachar, name_end, names_gh, nested_state,
    operator_end, parameter_loop, push_equals, run_end, scan_ansi_c_quoted, scan_array,
    scan_backquoted, scan_command_list, scan_commands, scan_dollar, scan_double_quoted,
    scan_double_quoted_escape, scan_escape, scan_nested_arithmetic, scan_nested_parameter,
    scan_redirection, scan_single_quoted, scan_variable_name, scan_word, scan_word_or_redirection,
    single_quoted_loop, start_state, with_pos, word_loop, word_part, HeredocModel, Run, ScanState,
    Until, WordModel,
};
pub use crate::bash_model::{ParseError, MAX_NESTING};
use crate::text::{chars_of, string_of};
use vstd::prelude::*;

verus! {

/// A heredoc whose body starts on the next line.
pub struct Heredoc {
    pub delimiter: Vec<char>,
    pub strip_tabs: bool,
}

impl View for Heredoc {
    type V = HeredocModel;

    open spec fn view(&self) -> HeredocModel {
        HeredocModel { delimiter: self.delimiter@, strip_tabs: self.strip_tabs }
    }
}

/// A shell word as the scanner records it.
pub struct Word {
    pub text: Vec<char>,
    pub quoted: bool,
    pub expanded: bool,
    pub assignment: Option<bool>,
}

impl View for Word {
    type V = WordModel;

    open spec fn view(&self) -> WordModel {
        WordModel {
            text: self.text@,
            quoted: self.quoted,
            expanded: self.expanded,
            assignment: self.assignment,
        }
    }
}

impl Word {
    /// An empty word.
    pub fn new() -> (w: Word)
        ensures
            w@ == empty_word(),
    {
        Word { text: Vec::new(), quoted: false, expanded: false, assignment: None }
    }

    /// Records an `=`: the first one decides whether the word is an assignment.
    pub fn push_equals(&mut self)
        ensures
            final(self)@ == push_equals(old(self)@),
    {
        if self.assignment.is_none() {
            let name = is_assignment_name_chars(&self.text);
            self.assignment = Some(!self.quoted && !self.expanded && name);
        }
        self.text.push('=');
    }

    /// The word is unquoted, unexpanded, and its text is `text`.
    pub fn is_plain(&self, text: &str) -> (r: bool)
        ensures
            r == is_plain(self@, text@),
    {
        let chars = chars_of(text);
        !self.quoted && !self.expanded && chars_eq(&self.text, chars.as_slice())
    }
}

/// The found word as characters.
pub open spec fn found_view(found: Option<Vec<char>>) -> Option<Seq<char>> {
    match found {
        Some(w) => Some(w@),
        None => None,
    }
}

/// A scanned word, or why it could not be scanned, in the model.
pub open spec fn word_result(r: Result<Word, ParseError>) -> Result<WordModel, ParseError> {
    match r {
        Ok(w) => Ok(w@),
        Err(e) => Err(e),
    }
}

/// The outcome of a round of a command list, in the model.
pub open spec fn round_view(r: Result<Option<(bool, usize)>, ParseError>) -> Result<
    Option<(bool, int)>,
    ParseError,
> {
    match r {
        Ok(Some((next, d))) => Ok(Some((next, d as int))),
        Ok(None) => Ok(None),
        Err(e) => Err(e),
    }
}

/// The found word, if any, names the GitHub CLI.
pub open spec fn found_names_gh(st: ScanState) -> bool {
    st.found matches Some(w) ==> names_gh(w)
}

/// The part of a command that a new nesting level holds.
pub enum Nested {
    List(Until),
    Arithmetic,
    Parameter,
}

/// The scanner: the characters of a command line and its state.
pub struct Parser {
    chars: Vec<char>,
    pos: usize,
    nesting: usize,
    found: Option<Vec<char>>,
    heredocs: Vec<Heredoc>,
}

/// What every step keeps: the scanner stays well formed, the input and the
/// nesting level stay as they were, the position never moves back and stays
/// within the input, a word found before stays found, and a found word names
/// the GitHub CLI.
pub open spec fn follows(a: Parser, b: Parser) -> bool {
    &&& b.wf()
    &&& b.input() == a.input()
    &&& a.st().pos <= b.st().pos <= b.input().len()
    &&& b.st().nesting == a.st().nesting
    &&& (a.st().found is Some ==> b.st().found == a.st().found)
    &&& (found_names_gh(a.st()) ==> found_names_gh(b.st()))
}

impl Parser {
    /// The position is within the input and the nesting within one level of
    /// the limit.
    pub closed spec fn wf(&self) -> bool {
        self.pos <= self.chars.len() && self.nesting <= MAX_NESTING + 1
    }

    /// The characters of the command line.
    pub closed spec fn input(&self) -> Seq<char> {
        self.chars@
    }

    /// The state of the scanner in the model.
    pub closed spec fn st(&self) -> ScanState {
        ScanState {
            pos: self.pos as int,
            nesting: self.nesting as int,
            found: found_view(self.found),
            heredocs: self.heredocs@.map_values(|h: Heredoc| h@),
        }
    }

    /// A scanner at the start of `source`.
    pub fn new(source: &str) -> (p: Parser)
        ensures
            p.wf(),
            p.input() == source@,
            p.st() == start_state(0),
    {
        let p = Parser {
            chars: chars_of(source),
            pos: 0,
            nesting: 0,
            found: None,
            heredocs: Vec::new(),
        };
        assert(p.st().heredocs =~= Seq::<HeredocModel>::empty());
        p
    }

    /// The character under the cursor.
    pub fn peek(&self) -> (r: Option<char>)
        ensures
            r == at(self.input(), self.st().pos),
    {
        if self.pos < self.chars.len() {
            Some(self.chars[self.pos])
        } else {
            None
        }
    }

    /// The character `offset` places after the cursor.
    pub fn peek_at(&self, offset: usize) -> (r: Option<char>)
        requires
            self.wf(),
        ensures
            r == at(self.input(), self.st().pos + offset),
    {
        if offset < self.chars.len() - self.pos {
            Some(self.chars[self.pos + offset])
        } else {
            None
        }
    }

    /// The character under the cursor, which the cursor then moves past;
    /// `Unparsable` at the end of the input.
    pub fn bump(&mut self) -> (r: Result<char, ParseError>)
        requires
            old(self).wf(),
        ensures
            follows(*old(self), *final(self)),
            match at(old(self).input(), old(self).st().pos) {
                Some(c) => r == Ok::<char, ParseError>(c) && final(self).st() == with_pos(
                    old(self).st(),
                    old(self).st().pos + 1,
                ),
                None => r == Err::<char, ParseError>(ParseError::Unparsable) && final(self).st()
                    == old(self).st(),
            },
    {
        match self.peek() {
            Some(c) => {
                self.pos += 1;
                Ok(c)
            },
            None => Err(ParseError::Unparsable),
        }
    }

    /// The end of a run of characters from `from`.
    fn run_end(&self, from: usize, run: Run) -> (e: usize)
        requires
            from <= self.chars.len(),
        ensures
            e == run_end(self.chars@, from as int, run),
    {
        let mut i = from;
        while i < self.chars.len() && run_keeps(run, self.chars[i])
            invariant
                from <= i <= self.chars.len(),
                run_end(self.chars@, i as int, run) == run_end(self.chars@, from as int, run),
            decreases self.chars.len() - i,
        {
            i += 1;
        }
        i
    }

    /// Moves past blanks and escaped newlines; the character that follows.
    pub fn skip_blanks(&mut self) -> (r: Option<char>)
        requires
            old(self).wf(),
        ensures
            follows(*old(self), *final(self)),
            final(self).st() == with_pos(
                old(self).st(),
                blanks_end(old(self).input(), old(self).st().pos),
            ),
            r == at(final(self).input(), final(self).st().pos),
            r matches Some(c) ==> c != ' ' && c != '\t' && c != '\r',
    {
        let ghost s = self.chars@;
        loop
            invariant
                self.wf(),
                self.chars@ == s,
                s == old(self).chars@,
                old(self).pos <= self.pos,
                self.nesting == old(self).nesting,
                self.st() == with_pos(old(self).st(), self.pos as int),
                blanks_end(s, self.pos as int) == blanks_end(s, old(self).pos as int),
            decreases self.chars.len() - self.pos,
        {
            match self.peek() {
                None => {
                    return None;
                },
                Some(c) => {
                    if c == ' ' || c == '\t' || c == '\r' {
                        self.pos += 1;
                    } else if c == '\\' && self.peek_at(1) == Some('\n') {
                        self.pos += 2;
                    } else {
                        return Some(c);
                    }
                },
            }
        }
    }

    /// Moves to the end of the line.
    pub fn skip_comment(&mut self)
        requires
            old(self).wf(),
        ensures
            follows(*old(self), *final(self)),
            final(self).st() == with_pos(
                old(self).st(),
                comment_end(old(self).input(), old(self).st().pos),
            ),
    {
        proof {
            lemma_run_end(self.chars@, self.pos as int, Run::NotNewline);
        }
        self.pos = self.run_end(self.pos, Run::NotNewline);
    }

    /// Moves past a run of control operator characters.
    pub fn skip_operator(&mut self)
        requires
            old(self).wf(),
        ensures
            follows(*old(self), *final(self)),
            final(self).st() == with_pos(
                old(self).st(),
                operator_end(old(self).input(), old(self).st().pos),
            ),
    {
        proof {
            lemma_run_end(self.chars@, self.pos as int, Run::Operator);
        }
        self.pos = self.run_end(self.pos, Run::Operator);
    }


    /// A backslash outside quotes.
    pub fn escape(&mut self, word: &mut Word)
        requires
            old(self).wf(),
        ensures
            follows(*old(self), *final(self)),
            (final(self).st(), final(word)@) == scan_escape(
                old(self).input(),
                old(self).st(),
                old(word)@,
            ),
    {
        word.quoted = true;
        match self.bump() {
            Ok(c) => {
                if c != '\n' {
                    word.text.push(c);
                }
            },
            Err(_) => {},
        }
    }

    /// The body of a single-quoted string.
    pub fn single_quoted(&mut self, word: &mut Word) -> (r: Result<(), ParseError>)
        requires
            old(self).wf(),
        ensures
            follows(*old(self), *final(self)),
            (r, final(self).st(), final(word)@) == scan_single_quoted(
                old(self).input(),
                old(self).st(),
                old(word)@,
            ),
    {
        word.quoted = true;
        let ghost s = self.chars@;
        let ghost goal = single_quoted_loop(s, self.st(), word@);
        loop
            invariant
                follows(*old(self), *self),
                self.chars@ == s,
                self.st() == with_pos(old(self).st(), self.pos as int),
                single_quoted_loop(s, self.st(), word@) == goal,
                goal == scan_single_quoted(s, old(self).st(), old(word)@),
            decreases self.chars.len() - self.pos,
        {
            match self.bump() {
                Err(e) => {
                    return Err(e);
                },
                Ok(c) => {
                    if c == '\'' {
                        return Ok(());
                    }
                    word.text.push(c);
                },
            }
        }
    }

    /// A backslash inside double quotes.
    pub fn double_quoted_escape(&mut self, word: &mut Word)
        requires
            old(self).wf(),
        ensures
            follows(*old(self), *final(self)),
            (final(self).st(), final(word)@) == scan_double_quoted_escape(
                old(self).input(),
                old(self).st(),
                old(word)@,
            ),
    {
        match self.peek() {
            Some(c) => {
                if c == '\n' {
                    self.pos += 1;
                } else if c == '$' || c == '`' || c == '"' || c == '\\' {
                    self.pos += 1;
                    word.text.push(c);
                } else {
                    word.text.push('\\');
                }
            },
            None => {
                word.text.push('\\');
            },
        }
    }

    /// The body of a `$'...'` string.
    pub fn ansi_c_quoted(&mut self, word: &mut Word) -> (r: Result<(), ParseError>)
        requires
            old(self).wf(),
        ensures
            follows(*old(self), *final(self)),
            (r, final(self).st(), final(word)@) == scan_ansi_c_quoted(
                old(self).input(),
                old(self).st(),
                old(word)@,
            ),
    {
        word.quoted = true;
        let ghost s = self.chars@;
        let ghost goal = ansi_c_loop(s, self.st(), word@);
        loop
            invariant
                follows(*old(self), *self),
                self.chars@ == s,
                self.st() == with_pos(old(self).st(), self.pos as int),
                ansi_c_loop(s, self.st(), word@) == goal,
                goal == scan_ansi_c_quoted(s, old(self).st(), old(word)@),
            decreases self.chars.len() - self.pos,
        {
            match self.bump() {
                Err(e) => {
                    return Err(e);
                },
                Ok(c) => {
                    if c == '\'' {
                        return Ok(());
                    } else if c == '\\' {
                        match self.bump() {
                            Err(e) => {
                                return Err(e);
                            },
                            Ok(d) => {
                                let e = if d == 'n' {
                                    '\n'
                                } else if d == 't' {
                                    '\t'
                                } else {
                                    d
                                };
                                word.text.push(e);
                            },
                        }
                    } else {
                        word.text.push(c);
                    }
                },
            }
        }
    }

    /// A variable name after `$` whose first character is `first`, at the
    /// current position.
    pub fn push_variable_name(&mut self, word: &mut Word, first: char)
        requires
            old(self).wf(),
            old(self).st().pos < old(self).input().len(),
        ensures
            follows(*old(self), *final(self)),
            final(self).st().pos > old(self).st().pos,
            (final(self).st(), final(word)@) == scan_variable_name(
                old(self).input(),
                old(self).st(),
                old(word)@,
                first,
            ),
    {
        let ghost s = self.chars@;
        let ghost p = self.pos + 1;
        self.pos += 1;
        word.text.push(first);
        if is_alpha_exec(first) || first == '_' {
            proof {
                lemma_run_end(s, p, Run::NameChar);
            }
            let ghost t0 = word.text@;
            while self.pos < self.chars.len() && is_name_char_exec(self.chars[self.pos])
                invariant
                    self.wf(),
                    self.chars@ == s,
                    p <= self.pos,
                    p == old(self).pos + 1,
                    name_end(s, self.pos as int) == name_end(s, p),
                    self.nesting == old(self).nesting,
                    self.st() == with_pos(old(self).st(), self.pos as int),
                    word.text@ == t0 + s.subrange(p, self.pos as int),
                    word.quoted == old(word).quoted,
                    word.expanded == old(word).expanded,
                    word.assignment == old(word).assignment,
                decreases self.chars.len() - self.pos,
            {
                let c = self.chars[self.pos];
                let ghost q = self.pos as int;
                assert(c == s[q]);
                word.text.push(c);
                self.pos += 1;
                assert(s.subrange(p, q + 1) =~= s.subrange(p, q).push(c));
            }
        }
    }

    /// A line from the current position, without its newline; the position
    /// moves past the newline.
    pub fn read_line(&mut self) -> (r: Option<Vec<char>>)
        requires
            old(self).wf(),
        ensures
            follows(*old(self), *final(self)),
            ({
                let s = old(self).input();
                let p = old(self).st().pos;
                let e = comment_end(s, p);
                if p < s.len() {
                    &&& r matches Some(line) && line@ == s.subrange(p, e)
                    &&& final(self).st() == with_pos(
                        old(self).st(),
                        if e < s.len() {
                            e + 1
                        } else {
                            e
                        },
                    )
                } else {
                    r is None && final(self).st() == old(self).st()
                }
            }),
    {
        if self.pos >= self.chars.len() {
            return None;
        }
        let ghost s = self.chars@;
        let ghost p = self.pos as int;
        proof {
            lemma_run_end(s, p, Run::NotNewline);
        }
        let mut line: Vec<char> = Vec::new();
        while self.pos < self.chars.len() && self.chars[self.pos] != '\n'
            invariant
                self.wf(),
                self.chars@ == s,
                p <= self.pos,
                comment_end(s, self.pos as int) == comment_end(s, p),
                line@ == s.subrange(p, self.pos as int),
                self.nesting == old(self).nesting,
                self.st() == with_pos(old(self).st(), self.pos as int),
                p == old(self).pos,
                s == old(self).chars@,
                p < s.len(),
            decreases self.chars.len() - self.pos,
        {
            line.push(self.chars[self.pos]);
            self.pos += 1;
            assert(line@ =~= s.subrange(p, self.pos as int));
        }
        if self.pos < self.chars.len() {
            self.pos += 1;
        }
        Some(line)
    }

    /// The body of one heredoc.
    pub fn skip_heredoc(&mut self, heredoc: &Heredoc)
        requires
            old(self).wf(),
        ensures
            follows(*old(self), *final(self)),
            final(self).st() == with_pos(
                old(self).st(),
                heredoc_end(old(self).input(), old(self).st().pos, heredoc@),
            ),
    {
        let ghost s = self.chars@;
        loop
            invariant
                follows(*old(self), *self),
                self.chars@ == s,
                self.st() == with_pos(old(self).st(), self.pos as int),
                heredoc_end(s, self.pos as int, heredoc@) == heredoc_end(
                    s,
                    old(self).pos as int,
                    heredoc@,
                ),
            decreases self.chars.len() - self.pos,
        {
            let ghost p = self.pos as int;
            proof {
                lemma_run_end(s, p, Run::NotNewline);
            }
            match self.read_line() {
                None => {
                    return;
                },
                Some(line) => {
                    if line_matches(&line, heredoc) {
                        return;
                    }
                },
            }
        }
    }

    /// The bodies of the pending heredocs, which are then no longer pending.
    pub fn skip_heredoc_bodies(&mut self)
        requires
            old(self).wf(),
        ensures
            follows(*old(self), *final(self)),
            final(self).st() == (ScanState {
                pos: heredocs_end(old(self).input(), old(self).st().pos, old(self).st().heredocs),
                heredocs: Seq::empty(),
                ..old(self).st()
            }),
    {
        let mut heredocs: Vec<Heredoc> = Vec::new();
        std::mem::swap(&mut heredocs, &mut self.heredocs);
        let ghost s = self.chars@;
        let ghost hs = old(self).st().heredocs;
        assert(hs =~= heredocs@.map_values(|h: Heredoc| h@));
        assert(self.st().heredocs =~= Seq::<HeredocModel>::empty());
        assert(hs.skip(0) =~= hs);
        let mut i: usize = 0;
        while i < heredocs.len()
            invariant
                self.wf(),
                self.chars@ == s,
                old(self).pos <= self.pos,
                self.nesting == old(self).nesting,
                self.st() == (ScanState { pos: self.pos as int, heredocs: Seq::empty(), ..old(self).st() }),
                0 <= i <= heredocs.len(),
                hs == heredocs@.map_values(|h: Heredoc| h@),
                heredocs_end(s, self.pos as int, hs.skip(i as int)) == heredocs_end(
                    s,
                    old(self).pos as int,
                    hs,
                ),
            decreases heredocs.len() - i,
        {
            assert(hs.skip(i as int).drop_first() =~= hs.skip(i + 1));
            assert(hs.skip(i as int)[0] == heredocs@[i as int]@);
            self.skip_heredoc(&heredocs[i]);
            i += 1;
        }
        assert(hs.skip(i as int) =~= Seq::<HeredocModel>::empty());
        assert(self.st().heredocs =~= Seq::<HeredocModel>::empty());
    }

    /// Scans `body` one nesting level deeper; more than `MAX_NESTING` levels
    /// is `TooDeep`.
    pub fn nested(&mut self, body: Nested) -> (r: Result<(), ParseError>)
        requires
            old(self).wf(),
        ensures
            follows(*old(self), *final(self)),
            (r, final(self).st()) == match body {
                Nested::List(until) => scan_commands(old(self).input(), old(self).st(), until),
                Nested::Arithmetic => scan_nested_arithmetic(old(self).input(), old(self).st()),
                Nested::Parameter => scan_nested_parameter(old(self).input(), old(self).st()),
            },
        decreases old(self).input().len() - old(self).st().pos, 11int,
    {
        if self.nesting > MAX_NESTING {
            return Err(ParseError::TooDeep);
        }
        self.nesting += 1;
        let result = match body {
            Nested::List(until) => self.command_list(until),
            Nested::Arithmetic => self.skip_arithmetic(),
            Nested::Parameter => self.skip_parameter(),
        };
        self.nesting -= 1;
        result
    }

    /// A command list one nesting level deeper.
    pub fn commands(&mut self, until: Until) -> (r: Result<(), ParseError>)
        requires
            old(self).wf(),
        ensures
            follows(*old(self), *final(self)),
            (r, final(self).st()) == scan_commands(old(self).input(), old(self).st(), until),
        decreases old(self).input().len() - old(self).st().pos, 12int,
    {
        self.nested(Nested::List(until))
    }

    /// A command list up to the end of the input or to its closing `)`.
    pub fn command_list(&mut self, until: Until) -> (r: Result<(), ParseError>)
        requires
            old(self).wf(),
        ensures
            follows(*old(self), *final(self)),
            (r, final(self).st()) == scan_command_list(old(self).input(), old(self).st(), until),
            r is Ok && until is End ==> final(self).st().pos == final(self).input().len(),
            r is Ok && until is CloseParen ==> list_ends_well(
                final(self).input(),
                (r, final(self).st()),
                until,
            ),
        decreases old(self).input().len() - old(self).st().pos, 10int,
    {
        let ghost s = self.chars@;
        proof {
            command_list_ends_well(s, self.st(), until);
        }
        let mut at_command = true;
        let mut depth: usize = 0;
        loop
            invariant
                follows(*old(self), *self),
                self.chars@ == s,
                s == old(self).chars@,
                command_list_loop(s, self.st(), until, at_command, depth as int)
                    == scan_command_list(s, old(self).st(), until),
                list_ends_well(s, scan_command_list(s, old(self).st(), until), until),
                depth <= self.pos,
            decreases self.chars.len() - self.pos,
        {
            let ghost st = self.st();
            let c = match self.skip_blanks() {
                None => {
                    return match until {
                        Until::End => Ok(()),
                        Until::CloseParen => Err(ParseError::Unparsable),
                    };
                },
                Some(c) => c,
            };
            match self.command_step(c, until, at_command, depth) {
                Err(e) => {
                    return Err(e);
                },
                Ok(None) => {
                    return Ok(());
                },
                Ok(Some((next, d))) => {
                    at_command = next;
                    depth = d;
                },
            }
            assert(advanced(s, st, self.st()));
        }
    }

    /// One round of a command list at the character `c` under the cursor.
    fn command_step(&mut self, c: char, until: Until, at_command: bool, depth: usize) -> (r:
        Result<Option<(bool, usize)>, ParseError>)
        requires
            old(self).wf(),
            old(self).pos < old(self).chars.len(),
            old(self).chars@[old(self).pos as int] == c,
            c != ' ' && c != '\t' && c != '\r',
            depth <= old(self).pos,
        ensures
            follows(*old(self), *final(self)),
            (round_view(r), final(self).st()) == command_round(
                old(self).chars@,
                old(self).st(),
                c,
                until,
                at_command,
                depth as int,
            ),
            r matches Ok(Some((_, d))) ==> final(self).pos > old(self).pos && d <= final(self).pos,
        decreases old(self).chars@.len() - old(self).pos, 8int,
    {
        let ghost s = self.chars@;
        let ghost b = self.pos as int;
        if c == '\n' {
            self.pos += 1;
            self.skip_heredoc_bodies();
            Ok(Some((true, depth)))
        } else if c == '#' {
            proof {
                lemma_run_end(s, b + 1, Run::NotNewline);
            }
            self.skip_comment();
            Ok(Some((at_command, depth)))
        } else if c == '&' && self.peek_at(1) == Some('>') {
            match self.redirection() {
                Err(e) => Err(e),
                Ok(_) => Ok(Some((at_command, depth))),
            }
        } else if c == ';' || c == '|' || c == '&' {
            proof {
                lemma_run_end(s, b + 1, Run::Operator);
            }
            self.skip_operator();
            Ok(Some((true, depth)))
        } else if c == '(' && at_command && self.peek_at(1) == Some('(') {
            self.pos += 2;
            match self.nested(Nested::Arithmetic) {
                Err(e) => Err(e),
                Ok(_) => Ok(Some((false, depth))),
            }
        } else if c == '(' {
            self.pos += 1;
            Ok(Some((true, depth + 1)))
        } else if c == ')' && depth == 0 && matches!(until, Until::CloseParen) {
            self.pos += 1;
            Ok(None)
        } else if c == ')' {
            self.pos += 1;
            Ok(Some((true, if depth > 0 { depth - 1 } else { 0 })))
        } else if c == '<' || c == '>' {
            match self.redirection() {
                Err(e) => Err(e),
                Ok(_) => Ok(Some((at_command, depth))),
            }
        } else {
            match self.word_or_redirection(at_command) {
                Err(e) => Err(e),
                Ok(next) => Ok(Some((next, depth))),
            }
        }
    }

    /// A word, or a redirection that starts with a file descriptor number.
    /// The result says whether the next word is in command position.
    pub fn word_or_redirection(&mut self, at_command: bool) -> (r: Result<bool, ParseError>)
        requires
            old(self).wf(),
        ensures
            follows(*old(self), *final(self)),
            (r, final(self).st()) == scan_word_or_redirection(
                old(self).input(),
                old(self).st(),
                at_command,
            ),
            r is Ok && old(self).st().pos < old(self).input().len() && !metachar(
                old(self).input()[old(self).st().pos],
            ) ==> final(self).st().pos > old(self).st().pos,
        decreases old(self).input().len() - old(self).st().pos, 7int,
    {
        let ghost s = self.chars@;
        if self.at_fd_redirection() {
            proof {
                lemma_run_end(s, self.pos as int, Run::Digit);
            }
            self.pos = self.run_end(self.pos, Run::Digit);
            match self.redirection() {
                Err(e) => {
                    return Err(e);
                },
                Ok(_) => {},
            }
            return Ok(at_command);
        }
        let word = match self.word() {
            Err(e) => {
                return Err(e);
            },
            Ok(w) => w,
        };
        proof {
            broadcast use vstd::string::group_string_axioms;

            reveal_strlit("{");
            assert("{"@ =~= seq!['{']);
        }
        if word.is_plain("{") {
            return Ok(true);
        }
        if !at_command {
            return Ok(false);
        }
        if word.assignment == Some(true) {
            let n = word.text.len();
            if n > 0 && word.text[n - 1] == '=' && self.peek() == Some('(') {
                match self.skip_array() {
                    Err(e) => {
                        return Err(e);
                    },
                    Ok(_) => {},
                }
            }
            return Ok(true);
        }
        if !word.quoted && !word.expanded && is_reserved(&word.text) {
            return Ok(true);
        }
        if !word.expanded && is_gh_chars(&word.text) && self.found.is_none() {
            self.found = Some(word.text);
        }
        Ok(false)
    }

    /// A redirection: its operator, then a process substitution or a target
    /// word. A heredoc operator adds a pending heredoc.
    pub fn redirection(&mut self) -> (r: Result<(), ParseError>)
        requires
            old(self).wf(),
        ensures
            follows(*old(self), *final(self)),
            (r, final(self).st()) == scan_redirection(old(self).input(), old(self).st()),
            r is Ok && old(self).st().pos < old(self).input().len() && (old(self).input()[old(
                self,
            ).st().pos] == '<' || old(self).input()[old(self).st().pos] == '>' || old(
                self,
            ).input()[old(self).st().pos] == '&') ==> final(self).st().pos > old(self).st().pos,
        decreases old(self).input().len() - old(self).st().pos, 6int,
    {
        let ghost s = self.chars@;
        let p = self.pos;
        let c0 = self.peek();
        if (c0 == Some('<') || c0 == Some('>')) && self.peek_at(1) == Some('(') {
            self.pos += 2;
            return self.commands(Until::CloseParen);
        }
        let o = self.run_end(p, Run::RedirectionChar);
        proof {
            lemma_run_end(s, p as int, Run::RedirectionChar);
        }
        let ghost operator = s.subrange(p as int, o as int);
        self.pos = o;
        let (is_gt, heredoc, strip_tabs) = operator_kind(&self.chars, p, o);
        if is_gt && self.peek() == Some('|') {
            self.pos += 1;
        }
        proof {
            lemma_run_end(s, self.pos as int, Run::SpaceOrTab);
        }
        self.pos = self.run_end(self.pos, Run::SpaceOrTab);
        match self.peek() {
            None => {
                return Ok(());
            },
            Some(c) => {
                if is_metachar(c) {
                    return Ok(());
                }
            },
        }
        let target = match self.word() {
            Err(e) => {
                return Err(e);
            },
            Ok(w) => w,
        };
        if heredoc {
            let ghost before = self.heredocs@;
            let heredoc = Heredoc { delimiter: target.text, strip_tabs };
            let ghost h = heredoc@;
            self.heredocs.push(heredoc);
            assert(self.heredocs@.map_values(|h: Heredoc| h@) =~= before.map_values(
                |h: Heredoc| h@,
            ).push(h));
        }
        Ok(())
    }

    /// An array assignment's value list, from its `(`.
    pub fn skip_array(&mut self) -> (r: Result<(), ParseError>)
        requires
            old(self).wf(),
            old(self).st().pos < old(self).input().len(),
        ensures
            follows(*old(self), *final(self)),
            (r, final(self).st()) == scan_array(old(self).input(), old(self).st()),
        decreases old(self).input().len() - old(self).st().pos, 5int,
    {
        let ghost s = self.chars@;
        self.pos += 1;
        loop
            invariant
                follows(*old(self), *self),
                self.chars@ == s,
                s == old(self).chars@,
                old(self).pos < self.pos,
                array_loop(s, self.st()) == scan_array(s, old(self).st()),
            decreases self.chars.len() - self.pos,
        {
            let ghost st = self.st();
            let c = match self.skip_blanks() {
                None => {
                    return Err(ParseError::Unparsable);
                },
                Some(c) => c,
            };
            let ghost b = self.pos as int;
            if c == ')' {
                self.pos += 1;
                return Ok(());
            } else if c == '\n' {
                self.pos += 1;
            } else if c == '#' {
                proof {
                    lemma_run_end(s, b + 1, Run::NotNewline);
                }
                self.skip_comment();
            } else if is_metachar(c) {
                return Err(ParseError::Unparsable);
            } else {
                match self.word() {
                    Err(e) => {
                        return Err(e);
                    },
                    Ok(_) => {},
                }
            }
            assert(advanced(s, st, self.st()));
        }
    }

    /// A word: characters up to the next metacharacter, with quoting and
    /// expansions.
    pub fn word(&mut self) -> (r: Result<Word, ParseError>)
        requires
            old(self).wf(),
        ensures
            follows(*old(self), *final(self)),
            (word_result(r), final(self).st()) == scan_word(old(self).input(), old(self).st()),
            r is Ok && old(self).st().pos < old(self).input().len() && !metachar(
                old(self).input()[old(self).st().pos],
            ) ==> final(self).st().pos > old(self).st().pos,
        decreases old(self).input().len() - old(self).st().pos, 3int,
    {
        let ghost s = self.chars@;
        let mut word = Word::new();
        loop
            invariant
                follows(*old(self), *self),
                self.chars@ == s,
                s == old(self).chars@,
                word_loop(s, self.st(), word@) == scan_word(s, old(self).st()),
            decreases self.chars.len() - self.pos,
        {
            let ghost st = self.st();
            let c = match self.peek() {
                None => {
                    return Ok(word);
                },
                Some(c) => c,
            };
            if is_metachar(c) {
                return Ok(word);
            }
            self.pos += 1;
            match self.word_part(c, &mut word) {
                Err(e) => {
                    return Err(e);
                },
                Ok(_) => {},
            }
            assert(advanced(s, st, self.st()));
        }
    }

    /// The part of a word that starts with the character `c`, from after `c`.
    fn word_part(&mut self, c: char, word: &mut Word) -> (r: Result<(), ParseError>)
        requires
            old(self).wf(),
        ensures
            follows(*old(self), *final(self)),
            (r, final(self).st(), final(word)@) == word_part(
                old(self).chars@,
                old(self).st(),
                c,
                old(word)@,
            ),
        decreases old(self).chars@.len() - old(self).pos, 4int,
    {
        if c == '\\' {
            self.escape(word);
            Ok(())
        } else if c == '\'' {
            self.single_quoted(word)
        } else if c == '"' {
            self.double_quoted(word)
        } else if c == '$' {
            self.dollar(word)
        } else if c == '`' {
            self.backquoted(word)
        } else if c == '=' {
            word.push_equals();
            Ok(())
        } else {
            word.text.push(c);
            Ok(())
        }
    }

    /// A double-quoted string, from after the opening quote.
    pub fn double_quoted(&mut self, word: &mut Word) -> (r: Result<(), ParseError>)
        requires
            old(self).wf(),
        ensures
            follows(*old(self), *final(self)),
            (r, final(self).st(), final(word)@) == scan_double_quoted(
                old(self).input(),
                old(self).st(),
                old(word)@,
            ),
        decreases old(self).input().len() - old(self).st().pos, 2int,
    {
        let ghost s = self.chars@;
        word.quoted = true;
        loop
            invariant
                follows(*old(self), *self),
                self.chars@ == s,
                s == old(self).chars@,
                double_quoted_loop(s, self.st(), word@) == scan_double_quoted(
                    s,
                    old(self).st(),
                    old(word)@,
                ),
            decreases self.chars.len() - self.pos,
        {
            let ghost st = self.st();
            let c = match self.bump() {
                Err(e) => {
                    return Err(e);
                },
                Ok(c) => c,
            };
            if c == '"' {
                return Ok(());
            } else if c == '\\' {
                self.double_quoted_escape(word);
            } else if c == '$' && (self.peek() == Some('"') || self.peek() == Some('\'')) {
                word.text.push('$');
            } else if c == '$' {
                match self.dollar(word) {
                    Err(e) => {
                        return Err(e);
                    },
                    Ok(_) => {},
                }
            } else if c == '`' {
                match self.backquoted(word) {
                    Err(e) => {
                        return Err(e);
                    },
                    Ok(_) => {},
                }
            } else {
                word.text.push(c);
            }
            assert(advanced(s, st, self.st()));
        }
    }

    /// What follows a `$`, from after the `$`.
    pub fn dollar(&mut self, word: &mut Word) -> (r: Result<(), ParseError>)
        requires
            old(self).wf(),
        ensures
            follows(*old(self), *final(self)),
            (r, final(self).st(), final(word)@) == scan_dollar(
                old(self).input(),
                old(self).st(),
                old(word)@,
            ),
        decreases old(self).input().len() - old(self).st().pos, 0int,
    {
        let c = match self.peek() {
            None => {
                word.text.push('$');
                return Ok(());
            },
            Some(c) => c,
        };
        if c == '\'' {
            self.pos += 1;
            self.ansi_c_quoted(word)
        } else if c == '"' {
            self.pos += 1;
            self.double_quoted(word)
        } else if c == '(' && self.peek_at(1) == Some('(') {
            self.pos += 2;
            word.expanded = true;
            self.nested(Nested::Arithmetic)
        } else if c == '(' {
            self.pos += 1;
            word.expanded = true;
            self.commands(Until::CloseParen)
        } else if c == '{' {
            self.pos += 1;
            word.expanded = true;
            self.nested(Nested::Parameter)
        } else if is_alnum_exec(c) || is_special_param_exec(c) {
            word.expanded = true;
            word.text.push('$');
            self.push_variable_name(word, c);
            Ok(())
        } else {
            word.text.push('$');
            Ok(())
        }
    }

    /// Arithmetic, up to the `))` outside inner parentheses.
    pub fn skip_arithmetic(&mut self) -> (r: Result<(), ParseError>)
        requires
            old(self).wf(),
        ensures
            follows(*old(self), *final(self)),
            (r, final(self).st()) == arithmetic_loop(old(self).input(), old(self).st(), 0),
        decreases old(self).input().len() - old(self).st().pos, 9int,
    {
        let ghost s = self.chars@;
        let mut depth: usize = 0;
        loop
            invariant
                follows(*old(self), *self),
                self.chars@ == s,
                s == old(self).chars@,
                depth <= self.pos - old(self).pos,
                arithmetic_loop(s, self.st(), depth as int) == arithmetic_loop(
                    s,
                    old(self).st(),
                    0,
                ),
            decreases self.chars.len() - self.pos,
        {
            let ghost st = self.st();
            let c = match self.bump() {
                Err(e) => {
                    return Err(e);
                },
                Ok(c) => c,
            };
            if c == ')' && depth == 0 && self.peek() == Some(')') {
                self.pos += 1;
                return Ok(());
            } else if c == '$' {
                let mut scratch = Word::new();
                match self.dollar(&mut scratch) {
                    Err(e) => {
                        return Err(e);
                    },
                    Ok(_) => {},
                }
            } else if c == '`' {
                let mut scratch = Word::new();
                match self.backquoted(&mut scratch) {
                    Err(e) => {
                        return Err(e);
                    },
                    Ok(_) => {},
                }
            } else if c == '(' {
                depth += 1;
            } else if c == ')' {
                if depth > 0 {
                    depth -= 1;
                }
            }
            assert(advanced(s, st, self.st()));
        }
    }

    /// A parameter expansion, up to the `}` that closes it.
    pub fn skip_parameter(&mut self) -> (r: Result<(), ParseError>)
        requires
            old(self).wf(),
        ensures
            follows(*old(self), *final(self)),
            (r, final(self).st()) == parameter_loop(
                old(self).input(),
                old(self).st(),
                1,
                empty_word(),
            ),
        decreases old(self).input().len() - old(self).st().pos, 9int,
    {
        let ghost s = self.chars@;
        let mut scratch = Word::new();
        // The depth never exceeds the characters read plus one, so it fits.
        let mut depth: u128 = 1;
        while depth > 0
            invariant
                follows(*old(self), *self),
                self.chars@ == s,
                s == old(self).chars@,
                depth <= self.pos - old(self).pos + 1,
                parameter_loop(s, self.st(), depth as int, scratch@) == parameter_loop(
                    s,
                    old(self).st(),
                    1,
                    empty_word(),
                ),
            decreases self.chars.len() - self.pos,
        {
            let ghost st = self.st();
            let c = match self.bump() {
                Err(e) => {
                    return Err(e);
                },
                Ok(c) => c,
            };
            if c == '{' {
                depth += 1;
            } else if c == '}' {
                depth -= 1;
            } else if c == '\\' {
                self.escape(&mut scratch);
            } else if c == '\'' {
                match self.single_quoted(&mut scratch) {
                    Err(e) => {
                        return Err(e);
                    },
                    Ok(_) => {},
                }
            } else if c == '"' {
                match self.double_quoted(&mut scratch) {
                    Err(e) => {
                        return Err(e);
                    },
                    Ok(_) => {},
                }
            } else if c == '$' {
                match self.dollar(&mut scratch) {
                    Err(e) => {
                        return Err(e);
                    },
                    Ok(_) => {},
                }
            } else if c == '`' {
                match self.backquoted(&mut scratch) {
                    Err(e) => {
                        return Err(e);
                    },
                    Ok(_) => {},
                }
            }
            assert(advanced(s, st, self.st()));
        }
        Ok(())
    }

    /// A backquoted command substitution, from after the opening backquote.
    /// Its command is scanned on its own, one nesting level deeper.
    pub fn backquoted(&mut self, word: &mut Word) -> (r: Result<(), ParseError>)
        requires
            old(self).wf(),
        ensures
            follows(*old(self), *final(self)),
            (r, final(self).st(), final(word)@) == scan_backquoted(
                old(self).input(),
                old(self).st(),
                old(word)@,
            ),
        decreases old(self).input().len() - old(self).st().pos, 0int,
    {
        let ghost s = self.chars@;
        let ghost p0 = self.pos as int;
        word.expanded = true;
        let mut inner: Vec<char> = Vec::new();
        loop
            invariant_except_break
                backquote_body(s, self.pos as int, inner@) == backquote_body(s, p0, Seq::empty()),
            invariant
                follows(*old(self), *self),
                self.chars@ == s,
                s == old(self).chars@,
                p0 == old(self).pos,
                self.st() == with_pos(old(self).st(), self.pos as int),
                inner@.len() <= self.pos - p0,
                word@ == (WordModel { expanded: true, ..old(word)@ }),
            ensures
                backquote_body(s, p0, Seq::empty()) == Some((inner@, self.pos as int)),
                inner@.len() + 1 <= self.pos - p0,
            decreases self.chars.len() - self.pos,
        {
            let c = match self.bump() {
                Err(e) => {
                    return Err(e);
                },
                Ok(c) => c,
            };
            if c == '`' {
                break;
            } else if c == '\\' {
                match self.bump() {
                    Err(e) => {
                        return Err(e);
                    },
                    Ok(d) => {
                        if d == '`' || d == '\\' || d == '$' {
                            inner.push(d);
                        } else {
                            inner.push('\\');
                            inner.push(d);
                        }
                    },
                }
            } else {
                inner.push(c);
            }
        }
        let mut parser = Parser {
            chars: inner,
            pos: 0,
            nesting: self.nesting,
            found: None,
            heredocs: Vec::new(),
        };
        assert(parser.st() == nested_state(old(self).st())) by {
            assert(parser.st().heredocs =~= Seq::<HeredocModel>::empty());
        }
        match parser.commands(Until::End) {
            Err(e) => {
                return Err(e);
            },
            Ok(_) => {},
        }
        if self.found.is_none() {
            self.found = parser.found;
        }
        Ok(())
    }

    /// Digits and then `<` or `>` stand at the cursor.
    pub fn at_fd_redirection(&self) -> (r: bool)
        requires
            self.wf(),
        ensures
            r == fd_redirection_at(self.input(), self.st().pos),
    {
        let digits = self.run_end(self.pos, Run::Digit);
        proof {
            lemma_run_end(self.chars@, self.pos as int, Run::Digit);
        }
        digits > self.pos && digits < self.chars.len() && (self.chars[digits] == '<'
            || self.chars[digits] == '>')
    }
}

/// What the redirection operator `chars[p..o]` is: `>`; one that starts a
/// heredoc (`<<` or `<<-`, or any other that begins with `<<` but `<<<`);
/// and `<<-`, whose heredoc lines may be indented with tabs.
fn operator_kind(chars: &Vec<char>, p: usize, o: usize) -> (r: (bool, bool, bool))
    requires
        p <= o <= chars.len(),
    ensures
        ({
            let operator = chars@.subrange(p as int, o as int);
            &&& r.0 == (operator == seq!['>'])
            &&& r.1 == (operator.len() >= 2 && operator[0] == '<' && operator[1] == '<' && operator
                != seq!['<', '<', '<'])
            &&& r.2 == (operator == seq!['<', '<', '-'])
        }),
{
    let ghost operator = chars@.subrange(p as int, o as int);
    let n = o - p;
    let is_gt = n == 1 && chars[p] == '>';
    assert(is_gt == (operator == seq!['>'])) by {
        if is_gt {
            assert(operator =~= seq!['>']);
        } else if operator == seq!['>'] {
            assert(operator.len() == 1);
            assert(operator[0] == '>');
        }
    }
    let starts_heredoc = n >= 2 && chars[p] == '<' && chars[p + 1] == '<';
    let is_here_string = n == 3 && starts_heredoc && chars[p + 2] == '<';
    let strip_tabs = n == 3 && starts_heredoc && chars[p + 2] == '-';
    assert(is_here_string == (operator == seq!['<', '<', '<'])) by {
        if is_here_string {
            assert(operator =~= seq!['<', '<', '<']);
        } else if operator == seq!['<', '<', '<'] {
            assert(operator.len() == 3);
            assert(operator[0] == '<' && operator[1] == '<' && operator[2] == '<');
        }
    }
    assert(strip_tabs == (operator == seq!['<', '<', '-'])) by {
        if strip_tabs {
            assert(operator =~= seq!['<', '<', '-']);
        } else if operator == seq!['<', '<', '-'] {
            assert(operator.len() == 3);
            assert(operator[0] == '<' && operator[1] == '<' && operator[2] == '-');
        }
    }
    (is_gt, starts_heredoc && !is_here_string, strip_tabs)
}

/// The value of a scan result, with the found word as its characters.
pub open spec fn found_result_view(r: Result<Option<String>, ParseError>) -> Result<
    Option<Seq<char>>,
    ParseError,
> {
    match r {
        Ok(Some(w)) => Ok(Some(w@)),
        Ok(None) => Ok(None),
        Err(e) => Err(e),
    }
}

/// The first word of `source` that runs the GitHub CLI directly, in command
/// position, in a command substitution, or in a process substitution; `None`
/// when there is none. A command line that is not complete (an unclosed
/// quote, substitution, or parenthesis) is `Unparsable`, and substitutions
/// nested more than `MAX_NESTING` levels deep are `TooDeep`.
pub fn find_direct_gh(source: &str) -> (r: Result<Option<String>, ParseError>)
    ensures
        found_result_view(r) == direct_gh(source@),
        r matches Ok(Some(w)) ==> names_gh(w@),
{
    let mut parser = Parser::new(source);
    match parser.commands(Until::End) {
        Err(e) => Err(e),
        Ok(_) => match parser.found {
            Some(w) => Ok(Some(string_of(&w))),
            None => Ok(None),
        },
    }
}

/// A line of a heredoc body matches the heredoc's delimiter.
fn line_matches(line: &Vec<char>, heredoc: &Heredoc) -> (r: bool)
    ensures
        r == (clean_line(line@, heredoc.strip_tabs) == heredoc.delimiter@),
{
    let mut end = line.len();
    if end > 0 && line[end - 1] == '\r' {
        end -= 1;
    }
    let ghost l = if line@.len() > 0 && line@.last() == '\r' {
        line@.drop_last()
    } else {
        line@
    };
    assert(l =~= line@.take(end as int));
    let mut start: usize = 0;
    if heredoc.strip_tabs {
        while start < end && line[start] == '\t'
            invariant
                0 <= start <= end <= line.len(),
                l =~= line@.take(end as int),
                run_end(l, start as int, Run::Tab) == run_end(l, 0, Run::Tab),
            decreases end - start,
        {
            start += 1;
        }
    }
    assert(clean_line(line@, heredoc.strip_tabs) =~= line@.subrange(start as int, end as int));
    range_eq(line, start, end, &heredoc.delimiter)
}

/// `a[start..end]` equals `b`.
fn range_eq(a: &Vec<char>, start: usize, end: usize, b: &Vec<char>) -> (r: bool)
    requires
        start <= end <= a.len(),
    ensures
        r == (a@.subrange(start as int, end as int) == b@),
{
    if end - start != b.len() {
        return false;
    }
    let mut i: usize = 0;
    while i < b.len()
        invariant
            end - start == b.len(),
            start <= end <= a.len(),
            0 <= i <= b.len(),
            forall|j: int| 0 <= j < i ==> a@[start + j] == b@[j],
        decreases b.len() - i,
    {
        if a[start + i] != b[i] {
            assert(a@.subrange(start as int, end as int)[i as int] != b@[i as int]);
            return false;
        }
        i += 1;
    }
    assert(a@.subrange(start as int, end as int) =~= b@);
    true
}

fn lower_exec(c: char) -> (r: u32)
    ensures
        r == lower(c),
{
    if 'A' <= c && c <= 'Z' {
        c as u32 + 32
    } else {
        c as u32
    }
}

/// `a[start..]` equals `b` in ASCII case-insensitive comparison.
fn range_eq_ignore_case(a: &Vec<char>, start: usize, b: &[char]) -> (r: bool)
    requires
        start <= a.len(),
    ensures
        r == eq_ignore_case(a@.subrange(start as int, a.len() as int), b@),
{
    let ghost t = a@.subrange(start as int, a.len() as int);
    if a.len() - start != b.len() {
        return false;
    }
    let mut i: usize = 0;
    while i < b.len()
        invariant
            a.len() - start == b.len(),
            start <= a.len(),
            t == a@.subrange(start as int, a.len() as int),
            0 <= i <= b.len(),
            forall|j: int| 0 <= j < i ==> lower(#[trigger] t[j]) == lower(b@[j]),
        decreases b.len() - i,
    {
        if lower_exec(a[start + i]) != lower_exec(b[i]) {
            assert(t[i as int] == a@[start + i]);
            return false;
        }
        i += 1;
    }
    true
}

/// The word's last path segment (after the last `/`, `\\`, or `:`) is `gh` or
/// `gh.exe`, in any ASCII case.
pub fn is_gh(word: &str) -> (r: bool)
    ensures
        r == names_gh(word@),
{
    is_gh_chars(&chars_of(word))
}

fn is_gh_chars(word: &Vec<char>) -> (r: bool)
    ensures
        r == names_gh(word@),
{
    let mut k = word.len();
    while k > 0 && !(word[k - 1] == '/' || word[k - 1] == '\\' || word[k - 1] == ':')
        invariant
            k <= word.len(),
            last_segment_start(word@, k as int) == last_segment_start(word@, word.len() as int),
        decreases k,
    {
        k -= 1;
    }
    let gh = ['g', 'h'];
    let gh_exe = ['g', 'h', '.', 'e', 'x', 'e'];
    assert(gh@ == seq!['g', 'h']);
    assert(gh_exe@ == seq!['g', 'h', '.', 'e', 'x', 'e']);
    range_eq_ignore_case(word, k, gh.as_slice()) || range_eq_ignore_case(word, k, gh_exe.as_slice())
}

fn is_special_param_exec(c: char) -> (r: bool)
    ensures
        r == is_special_param(c),
{
    c == '_' || c == '@' || c == '*' || c == '#' || c == '?' || c == '$' || c == '!' || c == '-'
}

/// An unquoted word that leaves the next word in command position.
fn is_reserved(text: &Vec<char>) -> (r: bool)
    ensures
        r == is_reserved_prefix(text@),
{
    let bang = ['!'];
    let if_ = ['i', 'f'];
    let then_ = ['t', 'h', 'e', 'n'];
    let else_ = ['e', 'l', 's', 'e'];
    let elif = ['e', 'l', 'i', 'f'];
    let while_ = ['w', 'h', 'i', 'l', 'e'];
    let until = ['u', 'n', 't', 'i', 'l'];
    let do_ = ['d', 'o'];
    let time = ['t', 'i', 'm', 'e'];
    assert(bang@ == seq!['!']);
    assert(if_@ == seq!['i', 'f']);
    assert(then_@ == seq!['t', 'h', 'e', 'n']);
    assert(else_@ == seq!['e', 'l', 's', 'e']);
    assert(elif@ == seq!['e', 'l', 'i', 'f']);
    assert(while_@ == seq!['w', 'h', 'i', 'l', 'e']);
    assert(until@ == seq!['u', 'n', 't', 'i', 'l']);
    assert(do_@ == seq!['d', 'o']);
    assert(time@ == seq!['t', 'i', 'm', 'e']);
    chars_eq(text, bang.as_slice()) || chars_eq(text, if_.as_slice()) || chars_eq(
        text,
        then_.as_slice(),
    ) || chars_eq(text, else_.as_slice()) || chars_eq(text, elif.as_slice()) || chars_eq(
        text,
        while_.as_slice(),
    ) || chars_eq(text, until.as_slice()) || chars_eq(text, do_.as_slice()) || chars_eq(
        text,
        time.as_slice(),
    )
}

fn run_keeps(run: Run, c: char) -> (r: bool)
    ensures
        r == keeps(run, c),
{
    match run {
        Run::NotNewline => c != '\n',
        Run::Operator => c == ';' || c == '|' || c == '&',
        Run::Digit => '0' <= c && c <= '9',
        Run::RedirectionChar => c == '<' || c == '>' || c == '&' || c == '-',
        Run::SpaceOrTab => c == ' ' || c == '\t',
        Run::NameChar => is_name_char_exec(c),
        Run::Tab => c == '\t',
        Run::NotOpenBracket => c != '[',
    }
}

fn is_alpha_exec(c: char) -> (r: bool)
    ensures
        r == is_alpha(c),
{
    ('a' <= c && c <= 'z') || ('A' <= c && c <= 'Z')
}

fn is_alnum_exec(c: char) -> (r: bool)
    ensures
        r == is_alnum(c),
{
    is_alpha_exec(c) || ('0' <= c && c <= '9')
}

fn is_name_char_exec(c: char) -> (r: bool)
    ensures
        r == is_name_char(c),
{
    is_alnum_exec(c) || c == '_'
}

fn chars_eq(a: &Vec<char>, b: &[char]) -> (r: bool)
    ensures
        r == (a@ == b@),
{
    if a.len() != b.len() {
        return false;
    }
    let mut i: usize = 0;
    while i < a.len()
        invariant
            a.len() == b.len(),
            0 <= i <= a.len(),
            forall|j: int| 0 <= j < i ==> a@[j] == b@[j],
        decreases a.len() - i,
    {
        if a[i] != b[i] {
            return false;
        }
        i += 1;
    }
    assert(a@ =~= b@);
    true
}

/// A shell metacharacter: it ends a word.
pub fn is_metachar(c: char) -> (r: bool)
    ensures
        r == metachar(c),
{
    c == ' ' || c == '\t' || c == '\r' || c == '\n' || c == ';' || c == '&' || c == '|' || c
        == '(' || c == ')' || c == '<' || c == '>'
}

/// The text before an `=` names a variable (allowing `name+` and `name[...]`).
pub fn is_assignment_name(text: &str) -> (r: bool)
    ensures
        r == assignment_name(text@),
{
    is_assignment_name_chars(&chars_of(text))
}

fn is_assignment_name_chars(text: &Vec<char>) -> (r: bool)
    ensures
        r == assignment_name(text@),
{
    let mut len = text.len();
    if len > 0 && text[len - 1] == '+' {
        len -= 1;
    }
    let ghost t = if text@.len() > 0 && text@.last() == '+' {
        text@.drop_last()
    } else {
        text@
    };
    assert(t =~= text@.take(len as int));
    let mut end: usize = 0;
    while end < len && text[end] != '['
        invariant
            0 <= end <= len <= text.len(),
            t =~= text@.take(len as int),
            run_end(t, end as int, Run::NotOpenBracket) == run_end(t, 0, Run::NotOpenBracket),
        decreases len - end,
    {
        end += 1;
    }
    let ghost name = t.take(end as int);
    assert(name == assignment_target(text@));
    if end == 0 {
        return false;
    }
    let first = text[0];
    assert(name[0] == first);
    if !(is_alpha_exec(first) || first == '_') {
        assert(!crate::bash_model::is_name(name));
        return false;
    }
    let mut i: usize = 1;
    while i < end
        invariant
            1 <= i <= end <= len <= text.len(),
            name =~= text@.take(end as int),
            name == assignment_target(text@),
            name.len() > 0 && (is_alpha(name[0]) || name[0] == '_'),
            forall|j: int| 1 <= j < i ==> is_name_char(#[trigger] name[j]),
        decreases end - i,
    {
        if !is_name_char_exec(text[i]) {
            assert(name[i as int] == text@[i as int]);
            assert(!is_name_char(name[i as int]));
            return false;
        }
        i += 1;
    }
    true
}

} // verus!
