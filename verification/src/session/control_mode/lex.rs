//! Command lines: words, quoting and getopt-style flags.

use crate::text::{chars_of, find, find_char, is_white_space, lemma_find, owned, views,
    white_space};
use vstd::prelude::*;
use vstd::slice::*;
use vstd::string::*;

verus! {

// ---------------------------------------------------------------------------
// Words
// ---------------------------------------------------------------------------

/// What a backslash before `c` stands for inside double quotes.
pub open spec fn quoted_escape(c: char) -> char {
    if c == 'n' {
        '\n'
    } else if c == 'r' {
        '\r'
    } else if c == 't' {
        '\t'
    } else if c == 'e' {
        '\u{1b}'
    } else {
        c
    }
}

/// The text up to the closing double quote of `s`, and how many characters of
/// `s` it takes with that quote; or what is wrong.
pub open spec fn quoted(s: Seq<char>) -> Result<(Seq<char>, nat), Seq<char>>
    decreases s.len(),
{
    if s.len() == 0 {
        Err("unterminated double quote"@)
    } else if s[0] == '"' {
        Ok((Seq::empty(), 1))
    } else if s[0] == '\\' {
        if s.len() == 1 {
            Err("trailing backslash"@)
        } else {
            match quoted(s.skip(2)) {
                Ok((t, n)) => Ok((seq![quoted_escape(s[1])] + t, n + 2)),
                Err(e) => Err(e),
            }
        }
    } else {
        match quoted(s.skip(1)) {
            Ok((t, n)) => Ok((seq![s[0]] + t, n + 1)),
            Err(e) => Err(e),
        }
    }
}

/// The quoted text ends inside `s`.
pub proof fn lemma_quoted_length(s: Seq<char>)
    ensures
        quoted(s) matches Ok((t, n)) ==> 1 <= n <= s.len(),
    decreases s.len(),
{
    if s.len() > 0 && s[0] != '"' {
        if s[0] == '\\' {
            if s.len() > 1 {
                lemma_quoted_length(s.skip(2));
            }
        } else {
            lemma_quoted_length(s.skip(1));
        }
    }
}

/// A list of words with `w` before it.
pub open spec fn word_then(
    w: Seq<char>,
    r: Result<Seq<Seq<char>>, Seq<char>>,
) -> Result<Seq<Seq<char>>, Seq<char>> {
    match r {
        Ok(ws) => Ok(seq![w] + ws),
        Err(e) => Err(e),
    }
}

/// The words of `s`, where `cur` is the word begun before it, if `begun`.
pub open spec fn words_from(s: Seq<char>, cur: Seq<char>, begun: bool) -> Result<
    Seq<Seq<char>>,
    Seq<char>,
>
    decreases s.len(),
{
    if s.len() == 0 {
        if begun {
            Ok(seq![cur])
        } else {
            Ok(Seq::empty())
        }
    } else if is_white_space(s[0]) {
        if begun {
            word_then(cur, words_from(s.skip(1), Seq::empty(), false))
        } else {
            words_from(s.skip(1), cur, false)
        }
    } else if s[0] == '\'' {
        let k = find(s.skip(1), '\'');
        proof {
            lemma_find(s.skip(1), '\'');
        }
        if k < s.len() - 1 {
            words_from(s.skip(k + 2), cur + s.subrange(1, k + 1), true)
        } else {
            Err("unterminated single quote"@)
        }
    } else if s[0] == '"' {
        proof {
            lemma_quoted_length(s.skip(1));
        }
        match quoted(s.skip(1)) {
            Ok((t, n)) => words_from(s.skip(n as int + 1), cur + t, true),
            Err(e) => Err(e),
        }
    } else if s[0] == '\\' {
        if s.len() == 1 {
            Err("trailing backslash"@)
        } else {
            words_from(s.skip(2), cur.push(s[1]), true)
        }
    } else {
        words_from(s.skip(1), cur.push(s[0]), true)
    }
}

/// The words of a command line, or what is wrong with its quoting.
///
/// Single quotes are fully literal, double quotes allow backslash escapes, and
/// a backslash outside quotes escapes the next character.
pub open spec fn words_of(line: Seq<char>) -> Result<Seq<Seq<char>>, Seq<char>> {
    words_from(line, Seq::empty(), false)
}

/// A list of words with `ws` before it.
pub open spec fn words_then(
    ws: Seq<Seq<char>>,
    r: Result<Seq<Seq<char>>, Seq<char>>,
) -> Result<Seq<Seq<char>>, Seq<char>> {
    match r {
        Ok(v) => Ok(ws + v),
        Err(e) => Err(e),
    }
}

/// Reads text up to the closing double quote, from `start` on, onto `cur`.
fn read_quoted(chars: &Vec<char>, start: usize, cur: &mut String) -> (r: Result<usize, String>)
    requires
        start <= chars@.len(),
    ensures
        match r {
            Ok(end) => quoted(chars@.skip(start as int)) matches Ok((t, n)) && end == start + n
                && end <= chars@.len() && final(cur)@ == old(cur)@ + t,
            Err(e) => quoted(chars@.skip(start as int)) == Err::<(Seq<char>, nat), _>(e@),
        },
{
    let ghost before = cur@;
    let ghost whole = quoted(chars@.skip(start as int));
    let mut i: usize = start;
    let ghost mut seen: Seq<char> = Seq::empty();
    while i < chars.len()
        invariant
            start <= i <= chars@.len(),
            before == old(cur)@,
            cur@ == before + seen,
            whole == quoted(chars@.skip(start as int)),
            match quoted(chars@.skip(i as int)) {
                Ok((t, n)) => whole == Ok::<_, Seq<char>>((seen + t, (i - start + n) as nat)),
                Err(e) => whole == Err::<(Seq<char>, nat), _>(e),
            },
        decreases chars.len() - i,
    {
        let ghost rest = chars@.skip(i as int);
        proof {
            lemma_quoted_length(rest);
        }
        let c: char = chars[i];
        if c == '"' {
            assert(seen + Seq::<char>::empty() =~= seen);
            return Ok(i + 1);
        }
        if c == '\\' {
            if i + 1 == chars.len() {
                return Err(owned("trailing backslash"));
            }
            let o: char = chars[i + 1];
            assert(rest[1] == o);
            let v: char = if o == 'n' {
                '\n'
            } else if o == 'r' {
                '\r'
            } else if o == 't' {
                '\t'
            } else if o == 'e' {
                '\u{1b}'
            } else {
                o
            };
            cur.push(v);
            proof {
                assert(rest.skip(2) =~= chars@.skip(i + 2));
                assert(before + seen.push(v) =~= (before + seen).push(v));
                match quoted(chars@.skip(i + 2)) {
                    Ok((t, n)) => {
                        assert(seen.push(v) + t =~= seen + (seq![v] + t));
                    },
                    Err(e) => {},
                }
                seen = seen.push(v);
            }
            i = i + 2;
        } else {
            cur.push(c);
            proof {
                assert(rest.skip(1) =~= chars@.skip(i + 1));
                assert(before + seen.push(c) =~= (before + seen).push(c));
                match quoted(chars@.skip(i + 1)) {
                    Ok((t, n)) => {
                        assert(seen.push(c) + t =~= seen + (seq![c] + t));
                    },
                    Err(e) => {},
                }
                seen = seen.push(c);
            }
            i = i + 1;
        }
    }
    Err(owned("unterminated double quote"))
}

/// Appends the characters from `start` to `end` to `cur`.
fn push_range(chars: &Vec<char>, start: usize, end: usize, cur: &mut String)
    requires
        start <= end <= chars@.len(),
    ensures
        final(cur)@ == old(cur)@ + chars@.subrange(start as int, end as int),
{
    let mut i: usize = start;
    assert(cur@ =~= old(cur)@ + chars@.subrange(start as int, start as int));
    while i < end
        invariant
            start <= i <= end <= chars@.len(),
            cur@ == old(cur)@ + chars@.subrange(start as int, i as int),
        decreases end - i,
    {
        cur.push(chars[i]);
        assert(cur@ =~= old(cur)@ + chars@.subrange(start as int, i + 1));
        i = i + 1;
    }
}

/// Splits a command line into words.
pub fn split_words(line: &str) -> (r: Result<Vec<String>, String>)
    ensures
        match r {
            Ok(ws) => words_of(line@) == Ok::<_, Seq<char>>(views(ws@)),
            Err(e) => words_of(line@) == Err::<Seq<Seq<char>>, _>(e@),
        },
{
    let chars = chars_of(line);
    let mut words: Vec<String> = Vec::new();
    let mut cur = String::new();
    let mut begun = false;
    let mut i: usize = 0;
    proof {
        assert(chars@.skip(0) =~= chars@);
        match words_of(line@) {
            Ok(v) => {
                assert(views(words@) + v =~= v);
            },
            Err(e) => {},
        }
    }
    while i < chars.len()
        invariant
            i <= chars@.len(),
            !begun ==> cur@ == Seq::<char>::empty(),
            words_of(line@) == words_then(
                views(words@),
                words_from(chars@.skip(i as int), cur@, begun),
            ),
        decreases chars.len() - i,
    {
        let ghost rest = chars@.skip(i as int);
        let ghost before = views(words@);
        let c: char = chars[i];
        assert(rest[0] == c);
        assert(rest.skip(1) =~= chars@.skip(i + 1));
        if white_space(c) {
            if begun {
                let ghost w = cur@;
                words.push(cur);
                cur = String::new();
                begun = false;
                proof {
                    assert(views(words@) =~= before.push(w));
                    match words_from(chars@.skip(i + 1), Seq::empty(), false) {
                        Ok(v) => {
                            assert(before.push(w) + v =~= before + (seq![w] + v));
                        },
                        Err(e) => {},
                    }
                }
            }
            i = i + 1;
        } else if c == '\'' {
            let tail = slice_subrange(chars.as_slice(), i + 1, chars.len());
            assert(tail@ =~= rest.skip(1));
            let k: usize = find_char(tail, '\'');
            if k == tail.len() {
                return Err(owned("unterminated single quote"));
            }
            push_range(&chars, i + 1, i + 1 + k, &mut cur);
            proof {
                assert(rest.subrange(1, k + 1) =~= chars@.subrange(i + 1, i + 1 + k));
                assert(rest.skip(k + 2) =~= chars@.skip(i + k + 2));
            }
            begun = true;
            i = i + k + 2;
        } else if c == '"' {
            match read_quoted(&chars, i + 1, &mut cur) {
                Ok(end) => {
                    proof {
                        let n = end - (i + 1);
                        assert(rest.skip(n + 1) =~= chars@.skip(end as int));
                        lemma_quoted_length(rest.skip(1));
                    }
                    begun = true;
                    i = end;
                },
                Err(e) => {
                    return Err(e);
                },
            }
        } else if c == '\\' {
            if i + 1 == chars.len() {
                return Err(owned("trailing backslash"));
            }
            assert(rest[1] == chars@[i + 1]);
            assert(rest.skip(2) =~= chars@.skip(i + 2));
            cur.push(chars[i + 1]);
            begun = true;
            i = i + 2;
        } else {
            cur.push(c);
            begun = true;
            i = i + 1;
        }
    }
    if begun {
        let ghost before = views(words@);
        let ghost w = cur@;
        words.push(cur);
        assert(views(words@) =~= before + seq![w]);
    } else {
        assert(views(words@) =~= views(words@) + Seq::<Seq<char>>::empty());
    }
    Ok(words)
}

// ---------------------------------------------------------------------------
// Quoting option values
// ---------------------------------------------------------------------------

/// Whether the splitter would read `c` as anything but itself.
pub open spec fn special(c: char) -> bool {
    is_white_space(c) || c == '"' || c == '\'' || c == '\\' || c == '$' || c == ';' || c == '#'
}

/// Whether a value has to be quoted to be read back as one word.
pub open spec fn needs_quotes(v: Seq<char>) -> bool {
    v.len() == 0 || exists|i: int| 0 <= i < v.len() && special(#[trigger] v[i])
}

/// The inside of a quoted value.
pub open spec fn quote_inside(v: Seq<char>) -> Seq<char>
    decreases v.len(),
{
    if v.len() == 0 {
        Seq::empty()
    } else if v.last() == '"' || v.last() == '\\' || v.last() == '$' {
        quote_inside(v.drop_last()).push('\\').push(v.last())
    } else {
        quote_inside(v.drop_last()).push(v.last())
    }
}

/// How an option value is shown.
pub open spec fn quote_value(v: Seq<char>) -> Seq<char> {
    if needs_quotes(v) {
        seq!['"'] + quote_inside(v) + seq!['"']
    } else {
        v
    }
}

/// How `show-options` prints a value: quoted only where it is empty or holds
/// anything the splitter would read as more than itself.
pub fn quote_option_value(v: &str) -> (r: String)
    ensures
        r@ == quote_value(v@),
{
    let chars = chars_of(v);
    let mut needs = chars.len() == 0;
    let mut i: usize = 0;
    while i < chars.len()
        invariant
            i <= chars@.len(),
            chars@ == v@,
            needs <==> (chars@.len() == 0 || exists|k: int|
                0 <= k < i && special(#[trigger] chars@[k])),
        decreases chars.len() - i,
    {
        let c: char = chars[i];
        if white_space(c) || c == '"' || c == '\'' || c == '\\' || c == '$' || c == ';' || c
            == '#' {
            assert(special(chars@[i as int]));
            needs = true;
        }
        i = i + 1;
    }
    if !needs {
        return owned(v);
    }
    let mut out = String::new();
    out.push('"');
    let mut i: usize = 0;
    proof {
        assert(v@.take(0) =~= Seq::<char>::empty());
        assert(out@ =~= seq!['"'] + quote_inside(v@.take(0)));
    }
    while i < chars.len()
        invariant
            i <= chars@.len(),
            chars@ == v@,
            out@ == seq!['"'] + quote_inside(v@.take(i as int)),
        decreases chars.len() - i,
    {
        let c: char = chars[i];
        proof {
            assert(v@.take(i + 1).drop_last() =~= v@.take(i as int));
            assert(v@.take(i + 1).last() == c);
        }
        if c == '"' || c == '\\' || c == '$' {
            out.push('\\');
        }
        out.push(c);
        assert(out@ =~= seq!['"'] + quote_inside(v@.take(i + 1)));
        i = i + 1;
    }
    out.push('"');
    proof {
        assert(v@.take(v@.len() as int) =~= v@);
        assert(out@ =~= seq!['"'] + quote_inside(v@) + seq!['"']);
    }
    out
}

proof fn lemma_quoted_append(v: Seq<char>, t: Seq<char>)
    ensures
        quoted(quote_inside(v) + t) == (match quoted(t) {
            Ok((x, n)) => Ok::<_, Seq<char>>((v + x, quote_inside(v).len() + n)),
            Err(e) => Err(e),
        }),
    decreases v.len(),
{
    if v.len() == 0 {
        assert(quote_inside(v) + t =~= t);
        match quoted(t) {
            Ok((x, n)) => {
                assert(v + x =~= x);
            },
            Err(e) => {},
        }
    } else {
        let c = v.last();
        let u = v.drop_last();
        let e: Seq<char> = if c == '"' || c == '\\' || c == '$' {
            seq!['\\', c]
        } else {
            seq![c]
        };
        let t2 = e + t;
        assert(quote_inside(v) + t =~= quote_inside(u) + t2);
        lemma_quoted_append(u, t2);
        assert(t2[0] == e[0]);
        if e.len() == 2 {
            assert(t2[1] == c);
            assert(t2.skip(2) =~= t);
        } else {
            assert(t2.skip(1) =~= t);
        }
        match quoted(t) {
            Ok((x, n)) => {
                assert(u + (seq![c] + x) =~= v + x);
            },
            Err(err) => {},
        }
    }
}

/// Whether a word stands for itself on a command line: it is not empty, and the
/// splitter reads none of its characters as more than itself.
pub open spec fn is_plain(w: Seq<char>) -> bool {
    &&& w.len() > 0
    &&& forall|k: int|
        0 <= k < w.len() ==> !is_white_space(#[trigger] w[k]) && w[k] != '\'' && w[k] != '"' && w[k]
            != '\\'
}

proof fn lemma_plain_word(v: Seq<char>, i: int)
    requires
        0 <= i <= v.len(),
        is_plain(v),
    ensures
        words_from(v.skip(i), v.take(i), i > 0) == Ok::<_, Seq<char>>(seq![v]),
    decreases v.len() - i,
{
    let s = v.skip(i);
    if i < v.len() {
        assert(s[0] == v[i]);
        lemma_plain_word(v, i + 1);
        assert(s.skip(1) =~= v.skip(i + 1));
        assert(v.take(i).push(v[i]) =~= v.take(i + 1));
    } else {
        assert(v.take(i) =~= v);
    }
}

/// A line of one plain word.
pub proof fn lemma_one_word(w: Seq<char>)
    requires
        is_plain(w),
    ensures
        words_of(w) == Ok::<_, Seq<char>>(seq![w]),
{
    lemma_plain_word(w, 0);
    assert(w.skip(0) =~= w);
    assert(w.take(0) =~= Seq::<char>::empty());
}

proof fn lemma_begun_word(w: Seq<char>, i: int, rest: Seq<char>)
    requires
        0 <= i <= w.len(),
        is_plain(w),
    ensures
        words_from(w.skip(i) + seq![' '] + rest, w.take(i), i > 0) == word_then(w, words_of(rest)),
    decreases w.len() - i,
{
    let s = w.skip(i) + seq![' '] + rest;
    if i < w.len() {
        assert(s[0] == w[i]);
        lemma_begun_word(w, i + 1, rest);
        assert(s.skip(1) =~= w.skip(i + 1) + seq![' '] + rest);
        assert(w.take(i).push(w[i]) =~= w.take(i + 1));
    } else {
        assert(w.take(i) =~= w);
        assert(s[0] == ' ');
        assert(s.skip(1) =~= rest);
    }
}

/// A line that begins with a plain word and a space.
pub proof fn lemma_first_word(w: Seq<char>, rest: Seq<char>)
    requires
        is_plain(w),
    ensures
        words_of(w + seq![' '] + rest) == word_then(w, words_of(rest)),
{
    lemma_begun_word(w, 0, rest);
    assert(w.skip(0) =~= w);
    assert(w.take(0) =~= Seq::<char>::empty());
}

/// A line of one word in single quotes.
pub proof fn lemma_single_quoted(w: Seq<char>)
    requires
        !w.contains('\''),
    ensures
        words_of(seq!['\''] + w + seq!['\'']) == Ok::<_, Seq<char>>(seq![w]),
{
    let s = seq!['\''] + w + seq!['\''];
    let t = s.skip(1);
    lemma_find(t, '\'');
    assert(t[w.len() as int] == '\'');
    if find(t, '\'') < w.len() {
        assert(w.contains(w[find(t, '\'')]));
    }
    assert(s.subrange(1, w.len() as int + 1) =~= w);
    assert(Seq::<char>::empty() + w =~= w);
    let rest = s.skip(w.len() as int + 2);
    assert(rest.len() == 0);
    assert(words_from(rest, w, true) == Ok::<_, Seq<char>>(seq![w]));
    assert(!is_white_space('\''));
    assert(s[0] == '\'');
}

proof fn lemma_quoted_before(s: Seq<char>, t: Seq<char>)
    requires
        quoted(s) is Ok,
    ensures
        quoted(s + t) == quoted(s),
    decreases s.len(),
{
    let all = s + t;
    assert(all[0] == s[0]);
    if s[0] == '\\' {
        assert(all[1] == s[1]);
        assert(all.skip(2) =~= s.skip(2) + t);
        lemma_quoted_before(s.skip(2), t);
    } else if s[0] != '"' {
        assert(all.skip(1) =~= s.skip(1) + t);
        lemma_quoted_before(s.skip(1), t);
    }
}

proof fn lemma_find_before(s: Seq<char>, t: Seq<char>, c: char)
    requires
        find(s, c) < s.len(),
    ensures
        find(s + t, c) == find(s, c),
{
    let k = find(s, c);
    lemma_find(s, c);
    lemma_find(s + t, c);
    assert((s + t)[k] == c);
    if find(s + t, c) < k {
        assert(s[find(s + t, c)] == c);
    }
}

proof fn lemma_words_before(s: Seq<char>, cur: Seq<char>, begun: bool, rest: Seq<char>)
    requires
        words_from(s, cur, begun) is Ok,
        !begun ==> cur.len() == 0,
    ensures
        words_from(s + (seq![' '] + rest), cur, begun) == words_then(
            words_from(s, cur, begun)->Ok_0,
            words_of(rest),
        ),
    decreases s.len(),
{
    let t = seq![' '] + rest;
    let all = s + t;
    if s.len() == 0 {
        assert(all =~= t);
        assert(t.skip(1) =~= rest);
        assert(is_white_space(' '));
        if !begun {
            assert(cur =~= Seq::<char>::empty());
        }
        if let Ok(v) = words_of(rest) {
            assert(Seq::<Seq<char>>::empty() + v =~= v);
        }
    } else {
        assert(all[0] == s[0]);
        assert(all.skip(1) =~= s.skip(1) + t);
        if is_white_space(s[0]) {
            if begun {
                lemma_words_before(s.skip(1), Seq::empty(), false, rest);
                let ws = words_from(s.skip(1), Seq::empty(), false)->Ok_0;
                if let Ok(v) = words_of(rest) {
                    assert(seq![cur] + (ws + v) =~= (seq![cur] + ws) + v);
                }
            } else {
                lemma_words_before(s.skip(1), cur, false, rest);
            }
        } else if s[0] == '\'' {
            let k = find(s.skip(1), '\'');
            lemma_find(s.skip(1), '\'');
            lemma_find_before(s.skip(1), t, '\'');
            assert(all.skip(k + 2) =~= s.skip(k + 2) + t);
            assert(all.subrange(1, k + 1) =~= s.subrange(1, k + 1));
            lemma_words_before(s.skip(k + 2), cur + s.subrange(1, k + 1), true, rest);
        } else if s[0] == '"' {
            lemma_quoted_length(s.skip(1));
            lemma_quoted_before(s.skip(1), t);
            if let Ok((q, n)) = quoted(s.skip(1)) {
                assert(all.skip(n as int + 1) =~= s.skip(n as int + 1) + t);
                lemma_words_before(s.skip(n as int + 1), cur + q, true, rest);
            }
        } else if s[0] == '\\' {
            assert(all[1] == s[1]);
            assert(all.skip(2) =~= s.skip(2) + t);
            lemma_words_before(s.skip(2), cur.push(s[1]), true, rest);
        } else {
            lemma_words_before(s.skip(1), cur.push(s[0]), true, rest);
        }
    }
}

/// What follows a line and a space is read by itself: its words come behind the
/// line's, and what is wrong with it is wrong with the whole.
pub proof fn law_space_parts_words(line: Seq<char>, rest: Seq<char>)
    requires
        words_of(line) is Ok,
    ensures
        words_of(line + seq![' '] + rest) == words_then(words_of(line)->Ok_0, words_of(rest)),
{
    lemma_words_before(line, Seq::empty(), false, rest);
    assert(line + seq![' '] + rest =~= line + (seq![' '] + rest));
}

/// A line with a space and a word in single quotes behind it has exactly one
/// word more: the one in the quotes, as it stands there.
pub proof fn law_single_quoted_word_is_one_more(line: Seq<char>, w: Seq<char>)
    requires
        words_of(line) is Ok,
        !w.contains('\''),
    ensures
        words_of(line + seq![' '] + (seq!['\''] + w + seq!['\''])) == Ok::<_, Seq<char>>(
            words_of(line)->Ok_0.push(w),
        ),
{
    lemma_single_quoted(w);
    law_space_parts_words(line, seq!['\''] + w + seq!['\'']);
    assert(words_of(line)->Ok_0 + seq![w] =~= words_of(line)->Ok_0.push(w));
}

/// Splitting a shown value into words gives one word, the value itself.
pub proof fn law_shown_value_reads_back(v: Seq<char>)
    ensures
        words_of(quote_value(v)) == Ok::<_, Seq<char>>(seq![v]),
{
    if needs_quotes(v) {
        let s = quote_value(v);
        let close: Seq<char> = seq!['"'];
        assert(s[0] == '"');
        assert(s.skip(1) =~= quote_inside(v) + close);
        lemma_quoted_append(v, close);
        assert(quoted(close) == Ok::<_, Seq<char>>((Seq::<char>::empty(), 1nat)));
        assert(v + Seq::<char>::empty() =~= v);
        assert(Seq::<char>::empty() + v =~= v);
        let n = (quote_inside(v).len() + 1) as nat;
        assert(s.skip(n as int + 1).len() == 0);
        assert(!is_white_space('"'));
        assert(words_from(s.skip(n as int + 1), v, true) == Ok::<_, Seq<char>>(seq![v]));
    } else {
        assert forall|k: int| 0 <= k < v.len() implies !special(#[trigger] v[k]) by {}
        assert(is_plain(v));
        lemma_one_word(v);
    }
}

} // verus!
