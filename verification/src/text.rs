//! Text: conversions between strings and character vectors, decimal
//! numbers, white space and trimming, and the debug form of a string.
use vstd::prelude::*;
use vstd::std_specs::iter::IteratorSpec;

verus! {

/// `String::push` appends one character to the end of the string.
pub assume_specification[ String::push ](string: &mut String, ch: char)
    ensures
        final(string)@ == old(string)@.push(ch),
;

/// The characters of `source`, in order.
pub fn chars_of(source: &str) -> (r: Vec<char>)
    ensures
        r@ == source@,
{
    broadcast use vstd::string::group_string_axioms;

    let mut it = source.chars();
    let mut out: Vec<char> = Vec::new();
    loop
        invariant
            out@ + it.remaining() == source@,
            it.decrease() is Some,
        decreases it.decrease()->0,
    {
        let ghost before = it.remaining();
        match it.next() {
            Some(c) => {
                out.push(c);
                assert(out@ + it.remaining() =~= source@) by {
                    assert(before =~= seq![c] + it.remaining());
                }
            },
            None => {
                assert(before.len() == 0);
                assert(out@ =~= source@);
                return out;
            },
        }
    }
}

/// A string made of the characters of `chars`, in order.
pub fn string_of(chars: &Vec<char>) -> (r: String)
    ensures
        r@ == chars@,
{
    let mut out = String::new();
    let mut i: usize = 0;
    while i < chars.len()
        invariant
            0 <= i <= chars.len(),
            out@ == chars@.take(i as int),
        decreases chars.len() - i,
    {
        out.push(chars[i]);
        i += 1;
        assert(out@ =~= chars@.take(i as int));
    }
    assert(chars@.take(i as int) =~= chars@);
    out
}

/// The character of a decimal digit.
pub open spec fn digit_char(d: nat) -> char {
    ((d + 48) as u8) as char
}

/// The decimal notation of `n`, without leading zeros.
pub open spec fn decimal(n: nat) -> Seq<char>
    decreases n,
{
    if n < 10 {
        seq![digit_char(n)]
    } else {
        decimal(n / 10).push(digit_char(n % 10))
    }
}

/// Appends the decimal notation of `n`.
pub fn push_decimal(out: &mut Vec<char>, n: u64)
    ensures
        final(out)@ == old(out)@ + decimal(n as nat),
    decreases n,
{
    if n >= 10 {
        push_decimal(out, n / 10);
    }
    let d = (n % 10) as u8;
    out.push((d + 48) as char);
    proof {
        assert(old(out)@ + decimal(n as nat) =~= final(out)@) by {
            if n >= 10 {
                assert(decimal(n as nat) == decimal((n / 10) as nat).push(digit_char((n % 10) as nat)));
            }
        }
    }
}

/// The decimal notation of `i`, with a leading `-` when it is negative.
pub open spec fn signed_decimal(i: int) -> Seq<char> {
    if i < 0 {
        "-"@ + decimal((-i) as nat)
    } else {
        decimal(i as nat)
    }
}

/// Appends the decimal notation of `i`, with a leading `-` when it is
/// negative.
pub fn push_signed_decimal(out: &mut Vec<char>, i: i64)
    ensures
        final(out)@ == old(out)@ + signed_decimal(i as int),
{
    if i < 0 {
        out.push('-');
        let magnitude: u64 = if i == i64::MIN {
            9_223_372_036_854_775_808u64
        } else {
            (-i) as u64
        };
        push_decimal(out, magnitude);
        proof {
            reveal_strlit("-");
            assert(out@ =~= old(out)@ + signed_decimal(i as int));
        }
    } else {
        push_decimal(out, i as u64);
    }
}

/// Appends the characters of `s`.
pub fn push_str(out: &mut Vec<char>, s: &str)
    ensures
        final(out)@ == old(out)@ + s@,
{
    let chars = chars_of(s);
    let mut i: usize = 0;
    while i < chars.len()
        invariant
            0 <= i <= chars.len(),
            chars@ == s@,
            out@ == old(out)@ + chars@.take(i as int),
        decreases chars.len() - i,
    {
        out.push(chars[i]);
        i += 1;
        assert(out@ =~= old(out)@ + chars@.take(i as int));
    }
    assert(chars@.take(i as int) =~= chars@);
}

/// Appends the characters of `s`.
pub fn push_chars(out: &mut Vec<char>, s: &Vec<char>)
    ensures
        final(out)@ == old(out)@ + s@,
{
    let mut i: usize = 0;
    while i < s.len()
        invariant
            0 <= i <= s.len(),
            out@ == old(out)@ + s@.take(i as int),
        decreases s.len() - i,
    {
        out.push(s[i]);
        i += 1;
        assert(out@ =~= old(out)@ + s@.take(i as int));
    }
    assert(s@.take(i as int) =~= s@);
}

/// A character with the Unicode `White_Space` property, which
/// `char::is_whitespace` tests.
pub open spec fn white_space(c: char) -> bool {
    ('\u{9}' <= c <= '\u{d}') || c == ' ' || c == '\u{85}' || c == '\u{a0}' || c == '\u{1680}'
        || ('\u{2000}' <= c <= '\u{200a}') || c == '\u{2028}' || c == '\u{2029}' || c == '\u{202f}'
        || c == '\u{205f}' || c == '\u{3000}'
}

/// `char::is_whitespace`.
pub fn is_white_space(c: char) -> (r: bool)
    ensures
        r == white_space(c),
{
    ('\u{9}' <= c && c <= '\u{d}') || c == ' ' || c == '\u{85}' || c == '\u{a0}' || c
        == '\u{1680}' || ('\u{2000}' <= c && c <= '\u{200a}') || c == '\u{2028}' || c
        == '\u{2029}' || c == '\u{202f}' || c == '\u{205f}' || c == '\u{3000}'
}

/// `s` without leading and trailing white space.
pub open spec fn trimmed(s: Seq<char>) -> Seq<char>
    decreases s.len(),
{
    if s.len() > 0 && white_space(s[0]) {
        trimmed(s.drop_first())
    } else if s.len() > 0 && white_space(s.last()) {
        trimmed(s.drop_last())
    } else {
        s
    }
}

proof fn lemma_trimmed_range(s: Seq<char>, i: int, j: int)
    requires
        0 <= i <= j <= s.len(),
        forall|k: int| 0 <= k < i ==> white_space(#[trigger] s[k]),
        forall|k: int| j <= k < s.len() ==> white_space(#[trigger] s[k]),
        i < j ==> !white_space(s[i]) && !white_space(s[j - 1]),
    ensures
        trimmed(s) == s.subrange(i, j),
    decreases s.len(),
{
    if s.len() > 0 && white_space(s[0]) {
        let t = s.drop_first();
        if i > 0 {
            lemma_trimmed_range(t, i - 1, j - 1);
            assert(t.subrange(i - 1, j - 1) =~= s.subrange(i, j));
        } else {
            // i == 0 and s[0] is white space, so i == j == 0 and all is white space.
            assert(j == 0);
            lemma_trimmed_range(t, 0, 0);
            assert(t.subrange(0, 0) =~= s.subrange(0, 0));
        }
    } else if s.len() > 0 && white_space(s.last()) {
        let t = s.drop_last();
        if j < s.len() {
            lemma_trimmed_range(t, i, j);
            assert(t.subrange(i, j) =~= s.subrange(i, j));
        } else {
            assert(i == j);
            assert(false);
        }
    } else {
        if s.len() > 0 {
            if i > 0 {
                assert(white_space(s[0]));
            }
            if j < s.len() {
                assert(white_space(s[s.len() - 1]));
            }
        } else {
        }
        assert(s.subrange(i, j) =~= s);
    }
}

/// `s` without leading and trailing white space, as `str::trim` gives it.
pub fn trim(s: &str) -> (r: String)
    ensures
        r@ == trimmed(s@),
{
    let chars = chars_of(s);
    let mut i: usize = 0;
    while i < chars.len() && is_white_space(chars[i])
        invariant
            0 <= i <= chars.len(),
            forall|k: int| 0 <= k < i ==> white_space(#[trigger] chars@[k]),
        decreases chars.len() - i,
    {
        i += 1;
    }
    let mut j: usize = chars.len();
    while j > i && is_white_space(chars[j - 1])
        invariant
            i <= j <= chars.len(),
            forall|k: int| j <= k < chars.len() ==> white_space(#[trigger] chars@[k]),
        decreases j - i,
    {
        j -= 1;
    }
    proof {
        if i < j {
            assert(!white_space(chars@[i as int]));
        } else {
            assert(i == j);
            assert forall|k: int| j <= k < chars.len() implies white_space(#[trigger] chars@[k]) by {}
        }
        lemma_trimmed_range(chars@, i as int, j as int);
    }
    let mut out: Vec<char> = Vec::new();
    let mut k: usize = i;
    while k < j
        invariant
            i <= k <= j <= chars.len(),
            out@ == chars@.subrange(i as int, k as int),
        decreases j - k,
    {
        out.push(chars[k]);
        k += 1;
        assert(out@ =~= chars@.subrange(i as int, k as int));
    }
    string_of(&out)
}

/// What `{:?}` prints for a string.
pub uninterp spec fn str_debug(s: Seq<char>) -> Seq<char>;

/// A character that `{:?}` prints as itself inside a string: printable
/// ASCII other than `"` and `\\`.
pub open spec fn debug_plain(c: char) -> bool {
    ' ' <= c <= '~' && c != '"' && c != '\\'
}

/// `s` as `{:?}` prints it (`<str as Debug>::fmt`): in double quotes, with
/// `char::escape_debug` applied to each character. The contract names the
/// result; it states only that a string of printable ASCII characters other
/// than `"` and `\\` is printed as itself between double quotes.
#[verifier::external_body]
pub fn debug_text(s: &str) -> (r: String)
    ensures
        r@ == str_debug(s@),
        (forall|i: int| 0 <= i < s@.len() ==> debug_plain(#[trigger] s@[i])) ==> r@ == seq!['"']
            + s@ + seq!['"'],
{
    format!("{s:?}")
}

/// The words of `s`: its maximal runs of characters that are not white space,
/// in order.
pub open spec fn words(s: Seq<char>) -> Seq<Seq<char>>
    decreases s.len(),
{
    if s.len() == 0 {
        Seq::empty()
    } else {
        let ws = words(s.drop_last());
        let c = s.last();
        if white_space(c) {
            ws
        } else if s.len() >= 2 && !white_space(s[s.len() - 2]) {
            ws.drop_last().push(ws.last().push(c))
        } else {
            ws.push(seq![c])
        }
    }
}

/// One more character extends the last word, starts a new one, or, being
/// white space, leaves the words as they were.
pub proof fn lemma_words_step(s: Seq<char>, i: int)
    requires
        0 <= i < s.len(),
        forall|k: int| 0 <= k < words(s.take(i)).len() ==> #[trigger] words(s.take(i))[k].len() > 0,
        i > 0 && !white_space(s[i - 1]) ==> words(s.take(i)).len() > 0,
    ensures
        forall|k: int|
            0 <= k < words(s.take(i + 1)).len() ==> #[trigger] words(s.take(i + 1))[k].len() > 0,
        !white_space(s[i]) ==> words(s.take(i + 1)).len() > 0,
        words(s.take(i + 1)) == {
            let ws = words(s.take(i));
            let c = s[i];
            if white_space(c) {
                ws
            } else if i >= 1 && !white_space(s[i - 1]) {
                ws.drop_last().push(ws.last().push(c))
            } else {
                ws.push(seq![c])
            }
        },
{
    assert(s.take(i + 1).drop_last() =~= s.take(i));
    let ws = words(s.take(i));
    let c = s[i];
    if !white_space(c) && i >= 1 && !white_space(s[i - 1]) {
        let nw = ws.drop_last().push(ws.last().push(c));
        assert forall|k: int| 0 <= k < nw.len() implies #[trigger] nw[k].len() > 0 by {
            if k < ws.len() - 1 {
                assert(nw[k] == ws[k]);
            }
        }
    } else if !white_space(c) {
        let nw = ws.push(seq![c]);
        assert forall|k: int| 0 <= k < nw.len() implies #[trigger] nw[k].len() > 0 by {
            if k < ws.len() {
                assert(nw[k] == ws[k]);
            }
        }
    }
}

/// The words of `s`, as `str::split_whitespace` gives them.
pub fn split_words(s: &str) -> (r: Vec<String>)
    ensures
        r@.map_values(|w: String| w@) == words(s@),
{
    let chars = chars_of(s);
    let ghost t = chars@;
    let mut out: Vec<String> = Vec::new();
    let mut current: Vec<char> = Vec::new();
    let mut i: usize = 0;
    while i < chars.len()
        invariant
            0 <= i <= chars.len(),
            t == chars@,
            t == s@,
            forall|k: int|
                0 <= k < words(t.take(i as int)).len() ==> #[trigger] words(t.take(i as int))[k].len()
                    > 0,
            i > 0 && !white_space(t[i - 1]) ==> words(t.take(i as int)).len() > 0,
            ({
                let ws = words(t.take(i as int));
                if i > 0 && !white_space(t[i - 1]) {
                    out@.map_values(|w: String| w@) == ws.drop_last() && current@ == ws.last()
                } else {
                    out@.map_values(|w: String| w@) == ws && current@.len() == 0
                }
            }),
        decreases chars.len() - i,
    {
        let c = chars[i];
        proof {
            lemma_words_step(t, i as int);
        }
        let ghost ws = words(t.take(i as int));
        if is_white_space(c) {
            if current.len() > 0 {
                let ghost before = out@.map_values(|w: String| w@);
                let word = string_of(&current);
                out.push(word);
                current = Vec::new();
                proof {
                    assert(out@.map_values(|w: String| w@) =~= before.push(ws.last()));
                    assert(ws.drop_last().push(ws.last()) =~= ws);
                }
            } else {
                proof {
                    if i > 0 && !white_space(t[i - 1]) {
                        assert(ws.last().len() > 0);
                    }
                }
            }
        } else if i >= 1 && !is_white_space(chars[i - 1]) {
            current.push(c);
            proof {
                let nw = ws.drop_last().push(ws.last().push(c));
                assert(nw.drop_last() =~= ws.drop_last());
            }
        } else {
            proof {
                let nw = ws.push(seq![c]);
                assert(nw.drop_last() =~= ws);
            }
            current.push(c);
            assert(current@ =~= seq![c]);
        }
        i += 1;
    }
    assert(t.take(chars.len() as int) =~= t);
    if current.len() > 0 {
        let ghost before = out@.map_values(|w: String| w@);
        let ghost ws = words(t);
        out.push(string_of(&current));
        proof {
            assert(out@.map_values(|w: String| w@) =~= before.push(ws.last()));
            assert(ws.drop_last().push(ws.last()) =~= ws);
        }
    } else {
        proof {
            let ws = words(t);
            if chars.len() > 0 && !white_space(t[chars.len() - 1]) {
                assert(ws.last().len() > 0);
            }
        }
    }
    out
}

} // verus!
