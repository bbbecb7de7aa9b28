//! The commit hook's co-author value: when it is printed, and how a failure
//! is reported on one line.
use crate::text::{
    chars_of, is_white_space, lemma_words_step, push_chars, push_str, string_of, white_space, words,
};
use vstd::prelude::*;

verus! {

/// The words joined with single spaces.
pub open spec fn joined(ws: Seq<Seq<char>>) -> Seq<char>
    decreases ws.len(),
{
    if ws.len() == 0 {
        Seq::empty()
    } else if ws.len() == 1 {
        ws[0]
    } else {
        joined(ws.drop_last()) + seq![' '] + ws.last()
    }
}

/// `text` on one line: its words joined with single spaces.
pub open spec fn one_line_text(text: Seq<char>) -> Seq<char> {
    joined(words(text))
}

proof fn lemma_joined_extend(ws: Seq<Seq<char>>, c: char)
    requires
        ws.len() > 0,
    ensures
        joined(ws.drop_last().push(ws.last().push(c))) == joined(ws).push(c),
{
    let nw = ws.drop_last().push(ws.last().push(c));
    assert(nw.drop_last() =~= ws.drop_last());
    if ws.len() == 1 {
    } else {
        assert(joined(nw) == joined(ws.drop_last()) + seq![' '] + ws.last().push(c));
        assert(joined(ws.drop_last()) + seq![' '] + ws.last().push(c) =~= (joined(ws.drop_last())
            + seq![' '] + ws.last()).push(c));
    }
}

proof fn lemma_joined_new_word(ws: Seq<Seq<char>>, c: char)
    ensures
        joined(ws.push(seq![c])) == if ws.len() == 0 {
            seq![c]
        } else {
            joined(ws).push(' ').push(c)
        },
{
    let nw = ws.push(seq![c]);
    assert(nw.drop_last() =~= ws);
    if ws.len() > 0 {
        assert(joined(ws) + seq![' '] + seq![c] =~= joined(ws).push(' ').push(c));
    }
}

proof fn lemma_joined_empty(ws: Seq<Seq<char>>)
    requires
        forall|k: int| 0 <= k < ws.len() ==> #[trigger] ws[k].len() > 0,
    ensures
        (joined(ws).len() == 0) == (ws.len() == 0),
    decreases ws.len(),
{
    if ws.len() > 1 {
        assert(ws.drop_last()[0] == ws[0]);
        assert(ws.last() == ws[ws.len() - 1]);
    } else if ws.len() == 1 {
        assert(ws[0].len() > 0);
    }
}

/// Text on one line: each character is a space or not white space, no space
/// starts or ends it, and no two spaces follow each other.
pub open spec fn single_spaced(t: Seq<char>) -> bool {
    &&& forall|i: int| 0 <= i < t.len() ==> #[trigger] t[i] == ' ' || !white_space(t[i])
    &&& t.len() > 0 ==> t[0] != ' ' && t[t.len() - 1] != ' '
    &&& forall|i: int| 0 <= i < t.len() - 1 ==> !(#[trigger] t[i] == ' ' && t[i + 1] == ' ')
}

/// A word: not empty, and without white space.
pub open spec fn is_word(w: Seq<char>) -> bool {
    w.len() > 0 && forall|j: int| 0 <= j < w.len() ==> !white_space(#[trigger] w[j])
}

proof fn lemma_words_are_words(s: Seq<char>)
    ensures
        forall|k: int| 0 <= k < words(s).len() ==> is_word(#[trigger] words(s)[k]),
    decreases s.len(),
{
    if s.len() > 0 {
        lemma_words_are_words(s.drop_last());
        let ws = words(s.drop_last());
        let c = s.last();
        if !white_space(c) && s.len() >= 2 && !white_space(s[s.len() - 2]) {
            let nw = ws.drop_last().push(ws.last().push(c));
            assert forall|k: int| 0 <= k < nw.len() implies is_word(#[trigger] nw[k]) by {
                if k < ws.len() - 1 {
                    assert(nw[k] == ws[k]);
                } else {
                    assert(ws.len() > 0) by {
                        lemma_words_nonempty_after_word(s.drop_last());
                    }
                    assert(is_word(ws[ws.len() - 1]));
                    let w = ws.last().push(c);
                    assert forall|j: int| 0 <= j < w.len() implies !white_space(#[trigger] w[j]) by {
                        if j < w.len() - 1 {
                            assert(w[j] == ws.last()[j]);
                        }
                    }
                }
            }
        } else if !white_space(c) {
            let nw = ws.push(seq![c]);
            assert forall|k: int| 0 <= k < nw.len() implies is_word(#[trigger] nw[k]) by {
                if k < ws.len() {
                    assert(nw[k] == ws[k]);
                } else {
                    assert(nw[k] =~= seq![c]);
                }
            }
        }
    }
}

proof fn lemma_words_nonempty_after_word(s: Seq<char>)
    requires
        s.len() > 0,
        !white_space(s.last()),
    ensures
        words(s).len() > 0,
    decreases s.len(),
{
    let ws = words(s.drop_last());
    if s.len() >= 2 && !white_space(s[s.len() - 2]) {
        lemma_words_nonempty_after_word(s.drop_last());
    }
}

proof fn lemma_joined_single_spaced(ws: Seq<Seq<char>>)
    requires
        forall|k: int| 0 <= k < ws.len() ==> is_word(#[trigger] ws[k]),
    ensures
        single_spaced(joined(ws)),
        ws.len() > 0 ==> joined(ws).len() > 0,
    decreases ws.len(),
{
    if ws.len() == 1 {
        assert(is_word(ws[0]));
    } else if ws.len() > 1 {
        let init = ws.drop_last();
        assert forall|k: int| 0 <= k < init.len() implies is_word(#[trigger] init[k]) by {
            assert(init[k] == ws[k]);
        }
        lemma_joined_single_spaced(init);
        let a = joined(init);
        let w = ws.last();
        assert(is_word(ws[ws.len() - 1]));
        let t = a + seq![' '] + w;
        assert(joined(ws) == t);
        assert forall|i: int| 0 <= i < t.len() implies #[trigger] t[i] == ' ' || !white_space(
            t[i],
        ) by {
            if i < a.len() {
                assert(t[i] == a[i]);
            } else if i > a.len() {
                assert(t[i] == w[i - a.len() - 1]);
            }
        }
        assert(t[0] == a[0]);
        assert(t[t.len() - 1] == w[w.len() - 1]);
        assert forall|i: int| 0 <= i < t.len() - 1 implies !(#[trigger] t[i] == ' ' && t[i + 1]
            == ' ') by {
            if i + 1 < a.len() {
                assert(t[i] == a[i] && t[i + 1] == a[i + 1]);
            } else if i + 1 == a.len() {
                assert(t[i] == a[a.len() - 1]);
            } else if i == a.len() {
                assert(t[i + 1] == w[0]);
            } else {
                assert(t[i] == w[i - a.len() - 1] && t[i + 1] == w[i - a.len()]);
            }
        }
    }
}

/// `one_line` puts any text on one line: no line breaks or other white space
/// but single spaces between words, and no space at either end.
pub proof fn one_line_is_single_spaced(text: Seq<char>)
    ensures
        single_spaced(one_line_text(text)),
{
    lemma_words_are_words(text);
    lemma_joined_single_spaced(words(text));
}

proof fn lemma_words_of_white_space_end(p: Seq<char>, c: char)
    requires
        white_space(c),
    ensures
        words(p.push(c)) == words(p),
{
    assert(p.push(c).drop_last() =~= p);
}

/// The words of a text that ends with white space (or is empty), followed
/// by a word, are its words and that word.
proof fn lemma_words_append_word(p: Seq<char>, w: Seq<char>)
    requires
        p.len() == 0 || white_space(p.last()),
        is_word(w),
    ensures
        words(p + w) == words(p).push(w),
    decreases w.len(),
{
    let c = w.last();
    let init = w.drop_last();
    assert((p + w).drop_last() =~= p + init);
    assert((p + w).last() == c);
    assert(!white_space(w[w.len() - 1]));
    if init.len() == 0 {
        assert(p + init =~= p);
        if p.len() + w.len() >= 2 {
            assert((p + w)[(p + w).len() - 2] == p.last());
        }
        assert(seq![c] =~= w);
    } else {
        assert forall|j: int| 0 <= j < init.len() implies !white_space(#[trigger] init[j]) by {
            assert(init[j] == w[j]);
        }
        lemma_words_append_word(p, init);
        assert((p + w)[(p + w).len() - 2] == init.last());
        assert(!white_space(w[w.len() - 2]));
        let ws = words(p + init);
        assert(ws == words(p).push(init));
        assert(ws.drop_last() =~= words(p));
        assert(init.push(c) =~= w);
    }
}

/// Joining words and splitting the result gives the words back.
proof fn lemma_words_of_joined(ws: Seq<Seq<char>>)
    requires
        forall|k: int| 0 <= k < ws.len() ==> is_word(#[trigger] ws[k]),
    ensures
        words(joined(ws)) == ws,
    decreases ws.len(),
{
    if ws.len() == 0 {
    } else if ws.len() == 1 {
        assert(is_word(ws[0]));
        lemma_words_append_word(Seq::empty(), ws[0]);
        assert(Seq::<char>::empty() + ws[0] =~= ws[0]);
        assert(Seq::<Seq<char>>::empty().push(ws[0]) =~= ws);
    } else {
        let init = ws.drop_last();
        assert forall|k: int| 0 <= k < init.len() implies is_word(#[trigger] init[k]) by {
            assert(init[k] == ws[k]);
        }
        lemma_words_of_joined(init);
        let a = joined(init);
        let p = a.push(' ');
        assert(is_word(ws[ws.len() - 1]));
        lemma_words_of_white_space_end(a, ' ');
        lemma_words_append_word(p, ws.last());
        assert(a + seq![' '] + ws.last() =~= p + ws.last());
        assert(init.push(ws.last()) =~= ws);
    }
}

/// Putting a text on one line twice gives what putting it on one line once
/// gives.
pub proof fn one_line_is_idempotent(text: Seq<char>)
    ensures
        one_line_text(one_line_text(text)) == one_line_text(text),
{
    lemma_words_are_words(text);
    lemma_words_of_joined(words(text));
}

/// `text` on one line: its words, separated by any white space, joined with
/// single spaces.
pub fn one_line(text: &str) -> (r: String)
    ensures
        r@ == one_line_text(text@),
{
    let s = chars_of(text);
    let ghost t = s@;
    let mut out: Vec<char> = Vec::new();
    let mut i: usize = 0;
    while i < s.len()
        invariant
            0 <= i <= s.len(),
            t == s@,
            out@ == joined(words(t.take(i as int))),
            forall|k: int|
                0 <= k < words(t.take(i as int)).len() ==> #[trigger] words(t.take(i as int))[k].len()
                    > 0,
            i > 0 && !white_space(t[i - 1]) ==> words(t.take(i as int)).len() > 0,
        decreases s.len() - i,
    {
        let c = s[i];
        proof {
            lemma_words_step(t, i as int);
            lemma_joined_empty(words(t.take(i as int)));
        }
        let ghost ws = words(t.take(i as int));
        if is_white_space(c) {
        } else if i >= 1 && !is_white_space(s[i - 1]) {
            proof {
                lemma_joined_extend(ws, c);
            }
            out.push(c);
        } else {
            proof {
                lemma_joined_new_word(ws, c);
            }
            if out.len() > 0 {
                out.push(' ');
            }
            out.push(c);
        }
        i += 1;
    }
    assert(t.take(s.len() as int) =~= t);
    string_of(&out)
}

/// The environment variables whose non-empty value marks an agent session.
pub fn agent_markers() -> (r: Vec<&'static str>)
    ensures
        r@.len() == 5,
        r[0]@ == "CLAUDE_CODE_CHILD_SESSION"@,
        r[1]@ == "CODEX_THREAD_ID"@,
        r[2]@ == "GEMINI_CLI"@,
        r[3]@ == "COPILOT_CLI"@,
        r[4]@ == "CURSOR_AGENT"@,
{
    vec!["CLAUDE_CODE_CHILD_SESSION", "CODEX_THREAD_ID", "GEMINI_CLI", "COPILOT_CLI", "CURSOR_AGENT"]
}

/// A marker whose value is set and not empty.
pub open spec fn marker_set(value: Option<String>) -> bool {
    value matches Some(v) && v@.len() > 0
}

/// The session is an agent's: one of the markers' values, given in the order
/// of `agent_markers`, is set and not empty.
pub fn is_agent(values: &Vec<Option<String>>) -> (r: bool)
    ensures
        r == exists|i: int| 0 <= i < values.len() && #[trigger] marker_set(values[i]),
{
    let mut i: usize = 0;
    while i < values.len()
        invariant
            0 <= i <= values.len(),
            forall|j: int| 0 <= j < i ==> !#[trigger] marker_set(values[j]),
        decreases values.len() - i,
    {
        match &values[i] {
            Some(v) => {
                if chars_of(v.as_str()).len() > 0 {
                    assert(marker_set(values[i as int]));
                    return true;
                }
            },
            None => {},
        }
        i += 1;
    }
    false
}

/// What the commit hook prints on stderr when it cannot produce the
/// co-author value: the error on one line, and that the commit goes on
/// without the trailer.
pub fn failure_message(error: &str) -> (r: String)
    ensures
        r@ == "agent-gh: "@ + one_line_text(error@) + "; committed without the co-author trailer"@,
{
    let mut out: Vec<char> = Vec::new();
    push_str(&mut out, "agent-gh: ");
    let line = one_line(error);
    push_chars(&mut out, &chars_of(line.as_str()));
    push_str(&mut out, "; committed without the co-author trailer");
    string_of(&out)
}

} // verus!
