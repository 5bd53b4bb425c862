use vstd::prelude::*;
use crate::types::texts;

verus! {

/// The Unicode `White_Space` property.
pub open spec fn is_white_space(c: char) -> bool {
    ('\t' <= c && c <= '\r') || c == ' ' || c == '\u{85}' || c == '\u{a0}' || c == '\u{1680}'
        || ('\u{2000}' <= c && c <= '\u{200a}') || c == '\u{2028}' || c == '\u{2029}'
        || c == '\u{202f}' || c == '\u{205f}' || c == '\u{3000}'
}

/// Whether a character is Unicode white space.
pub fn white_space(c: char) -> (r: bool)
    ensures
        r == is_white_space(c),
{
    ('\t' <= c && c <= '\r') || c == ' ' || c == '\u{85}' || c == '\u{a0}' || c == '\u{1680}'
        || ('\u{2000}' <= c && c <= '\u{200a}') || c == '\u{2028}' || c == '\u{2029}'
        || c == '\u{202f}' || c == '\u{205f}' || c == '\u{3000}'
}

pub open spec fn is_ascii_alnum(c: char) -> bool {
    ('0' <= c && c <= '9') || ('a' <= c && c <= 'z') || ('A' <= c && c <= 'Z')
}

/// ASCII letters and digits are kept (upper case letters lowered), anything else
/// becomes an underscore.
pub open spec fn clean_char(c: char) -> char {
    if 'A' <= c && c <= 'Z' {
        ((c as u32) + 32) as char
    } else if is_ascii_alnum(c) {
        c
    } else {
        '_'
    }
}

/// A character as it stands in a generated base name.
pub fn clean(c: char) -> (r: char)
    ensures
        r == clean_char(c),
{
    if 'A' <= c && c <= 'Z' {
        ((c as u8) + 32) as char
    } else if ('0' <= c && c <= '9') || ('a' <= c && c <= 'z') {
        c
    } else {
        '_'
    }
}

/// Relies on `String::push`: the character is appended at the end.
#[verifier::external_body]
pub(crate) fn push_char(s: &mut String, c: char)
    ensures
        final(s)@ == old(s)@.push(c),
{
    s.push(c);
}

/// Relies on `String::pop`: removes and returns the last character, `None`
/// for an empty string.
#[verifier::external_body]
pub(crate) fn pop_char(s: &mut String) -> (r: Option<char>)
    ensures
        old(s)@.len() == 0 ==> r is None && final(s)@ == old(s)@,
        old(s)@.len() > 0 ==> r == Some(old(s)@.last()) && final(s)@ == old(s)@.drop_last(),
{
    s.pop()
}

/// The index of the first non-white-space character at or after `i`.
pub open spec fn skip_white(s: Seq<char>, i: int) -> int
    decreases s.len() - i,
{
    if 0 <= i < s.len() && is_white_space(s[i]) {
        skip_white(s, i + 1)
    } else {
        i
    }
}

/// The index of the first white-space character at or after `i`.
pub open spec fn token_end(s: Seq<char>, i: int) -> int
    decreases s.len() - i,
{
    if 0 <= i < s.len() && !is_white_space(s[i]) {
        token_end(s, i + 1)
    } else {
        i
    }
}

/// Longest length of a generated base name.
pub const MAX_BASE_LEN: usize = 64;

/// The base name derived from a command: its first white-space-delimited
/// token, each character cleaned, cut to `MAX_BASE_LEN` characters; "combo"
/// for a command without a token.
pub open spec fn sanitized(cmd: Seq<char>) -> Seq<char> {
    let a = skip_white(cmd, 0);
    if a >= cmd.len() {
        "combo"@
    } else {
        let t = cmd.subrange(a, token_end(cmd, a)).map_values(|c: char| clean_char(c));
        if t.len() <= MAX_BASE_LEN {
            t
        } else {
            t.take(MAX_BASE_LEN as int)
        }
    }
}

proof fn lemma_skip_white_bounds(s: Seq<char>, i: int)
    requires
        0 <= i <= s.len(),
    ensures
        i <= skip_white(s, i) <= s.len(),
        skip_white(s, i) < s.len() ==> !is_white_space(s[skip_white(s, i)]),
    decreases s.len() - i,
{
    if i < s.len() && is_white_space(s[i]) {
        lemma_skip_white_bounds(s, i + 1);
    }
}

proof fn lemma_token_end_bounds(s: Seq<char>, i: int)
    requires
        0 <= i <= s.len(),
    ensures
        i <= token_end(s, i) <= s.len(),
    decreases s.len() - i,
{
    if i < s.len() && !is_white_space(s[i]) {
        lemma_token_end_bounds(s, i + 1);
    }
}

/// Turns the first token of a command into a safe base name for a combo.
pub fn sanitize_name(cmd: &str) -> (r: String)
    ensures
        r@ == sanitized(cmd@),
{
    let n = cmd.unicode_len();
    let mut i: usize = 0;
    while i < n && white_space(cmd.get_char(i))
        invariant
            n == cmd@.len(),
            i <= n,
            skip_white(cmd@, i as int) == skip_white(cmd@, 0),
        decreases n - i,
    {
        i += 1;
    }
    if i == n {
        return String::from_str("combo");
    }
    let mut out = String::new();
    let mut j: usize = i;
    while j < n && j - i < MAX_BASE_LEN && !white_space(cmd.get_char(j))
        invariant
            n == cmd@.len(),
            i < n,
            i <= j <= n,
            j - i <= MAX_BASE_LEN,
            i == skip_white(cmd@, 0),
            token_end(cmd@, j as int) == token_end(cmd@, i as int),
            out@ == cmd@.subrange(i as int, j as int).map_values(|c: char| clean_char(c)),
        decreases n - j,
    {
        let c = clean(cmd.get_char(j));
        push_char(&mut out, c);
        j += 1;
        assert(out@ =~= cmd@.subrange(i as int, j as int).map_values(|c: char| clean_char(c)));
    }
    proof {
        let e = token_end(cmd@, i as int);
        lemma_token_end_bounds(cmd@, j as int);
        let t = cmd@.subrange(i as int, e).map_values(|c: char| clean_char(c));
        if j - i < MAX_BASE_LEN {
            assert(e == j);
        } else {
            assert(t.take(MAX_BASE_LEN as int) =~= out@);
        }
    }
    out
}

/// The character of a decimal digit.
pub open spec fn digit_char(d: nat) -> char {
    if d == 0 { '0' }
    else if d == 1 { '1' }
    else if d == 2 { '2' }
    else if d == 3 { '3' }
    else if d == 4 { '4' }
    else if d == 5 { '5' }
    else if d == 6 { '6' }
    else if d == 7 { '7' }
    else if d == 8 { '8' }
    else { '9' }
}

/// The decimal notation of a natural number, without leading zeros.
pub open spec fn decimal(n: nat) -> Seq<char>
    decreases n,
{
    if n < 10 {
        seq![digit_char(n)]
    } else {
        decimal(n / 10).push(digit_char(n % 10))
    }
}

fn digit(d: u64) -> (c: char)
    requires
        d < 10,
    ensures
        c == digit_char(d as nat),
{
    if d == 0 { '0' }
    else if d == 1 { '1' }
    else if d == 2 { '2' }
    else if d == 3 { '3' }
    else if d == 4 { '4' }
    else if d == 5 { '5' }
    else if d == 6 { '6' }
    else if d == 7 { '7' }
    else if d == 8 { '8' }
    else { '9' }
}

/// Appends the decimal notation of `n`.
pub fn push_decimal(s: &mut String, n: u64)
    ensures
        final(s)@ == old(s)@ + decimal(n as nat),
    decreases n,
{
    if n >= 10 {
        push_decimal(s, n / 10);
    }
    let c = digit(n % 10);
    push_char(s, c);
    assert(final(s)@ =~= old(s)@ + decimal(n as nat));
}

/// Lines joined with a newline between each two.
pub open spec fn joined(lines: Seq<Seq<char>>) -> Seq<char>
    decreases lines.len(),
{
    if lines.len() == 0 {
        Seq::empty()
    } else if lines.len() == 1 {
        lines[0]
    } else {
        joined(lines.drop_last()) + seq!['\n'] + lines.last()
    }
}

/// The lines joined with a newline between each two: the script a combo runs.
pub fn join_lines(lines: &Vec<String>) -> (r: String)
    ensures
        r@ == joined(texts(lines@)),
{
    let mut r = String::new();
    let mut i: usize = 0;
    while i < lines.len()
        invariant
            i <= lines@.len(),
            r@ == joined(texts(lines@).take(i as int)),
        decreases lines.len() - i,
    {
        assert(texts(lines@).take(i + 1).drop_last() =~= texts(lines@).take(i as int));
        if i > 0 {
            push_char(&mut r, '\n');
        }
        r.append(lines[i].as_str());
        i += 1;
        assert(r@ =~= joined(texts(lines@).take(i as int)));
    }
    assert(texts(lines@).take(i as int) =~= texts(lines@));
    r
}

/// The name given to a shell function when none is typed: "command_" and the
/// number of stored combos plus one.
pub open spec fn default_function_name(count: nat) -> Seq<char> {
    "command_"@ + decimal(count + 1)
}

/// The default shell-function name for a store holding `count` combos.
pub fn function_name_for(count: usize) -> (r: String)
    requires
        count < u64::MAX,
    ensures
        r@ == default_function_name(count as nat),
{
    let mut r = String::from_str("command_");
    push_decimal(&mut r, (count as u64) + 1);
    r
}

/// A shell function definition running the lines in order.
pub open spec fn function_text(name: Seq<char>, lines: Seq<Seq<char>>) -> Seq<char> {
    seq!['\n'] + name + " () { \n"@ + joined(lines) + "\n }\n"@
}

/// The text of a shell function named `name` whose body runs `lines`.
pub fn shell_function(name: &str, lines: &Vec<String>) -> (r: String)
    ensures
        r@ == function_text(name@, texts(lines@)),
{
    let mut r = String::new();
    push_char(&mut r, '\n');
    r.append(name);
    r.append(" () { \n");
    let body = join_lines(lines);
    r.append(body.as_str());
    r.append("\n }\n");
    r
}

/// `s` ends with `suffix`.
pub open spec fn has_suffix(s: Seq<char>, suffix: Seq<char>) -> bool {
    suffix.len() <= s.len() && s.subrange(s.len() - suffix.len(), s.len() as int) == suffix
}

/// `s` starts with `prefix`.
pub open spec fn has_prefix(s: Seq<char>, prefix: Seq<char>) -> bool {
    prefix.len() <= s.len() && s.take(prefix.len() as int) == prefix
}

/// Whether `s` ends with `suffix`.
pub fn ends_with(s: &str, suffix: &str) -> (r: bool)
    ensures
        r == has_suffix(s@, suffix@),
{
    let n = s.unicode_len();
    let m = suffix.unicode_len();
    if m > n {
        return false;
    }
    let mut i: usize = 0;
    while i < m
        invariant
            n == s@.len(),
            m == suffix@.len(),
            m <= n,
            i <= m,
            forall|k: int| 0 <= k < i ==> s@[n - m + k] == suffix@[k],
        decreases m - i,
    {
        if s.get_char(n - m + i) != suffix.get_char(i) {
            assert(s@.subrange(n - m, n as int)[i as int] != suffix@[i as int]);
            return false;
        }
        i += 1;
    }
    assert(s@.subrange(n - m, n as int) =~= suffix@);
    true
}

/// What follows `prefix` in `s`, if `s` starts with it.
pub fn strip_prefix(s: &str, prefix: &str) -> (r: Option<String>)
    ensures
        has_prefix(s@, prefix@) <==> r is Some,
        r matches Some(t) ==> t@ == s@.skip(prefix@.len() as int),
{
    let n = s.unicode_len();
    let m = prefix.unicode_len();
    if m > n {
        return None;
    }
    let mut i: usize = 0;
    while i < m
        invariant
            n == s@.len(),
            m == prefix@.len(),
            m <= n,
            i <= m,
            forall|k: int| 0 <= k < i ==> s@[k] == prefix@[k],
        decreases m - i,
    {
        if s.get_char(i) != prefix.get_char(i) {
            assert(s@.take(m as int)[i as int] != prefix@[i as int]);
            return None;
        }
        i += 1;
    }
    assert(s@.take(m as int) =~= prefix@);
    let rest = s.substring_char(m, n);
    assert(rest@ =~= s@.skip(m as int));
    Some(String::from_str(rest))
}

/// The decimal notation of an integer, with a leading minus when negative.
pub open spec fn signed_decimal(t: int) -> Seq<char> {
    if t < 0 {
        seq!['-'] + decimal((-t) as nat)
    } else {
        decimal(t as nat)
    }
}

/// Appends the decimal notation of `t`, with a leading minus when negative.
pub fn push_signed_decimal(s: &mut String, t: i64)
    ensures
        final(s)@ == old(s)@ + signed_decimal(t as int),
{
    if t < 0 {
        push_char(s, '-');
        let m: u64 = (0i128 - (t as i128)) as u64;
        push_decimal(s, m);
        assert(final(s)@ =~= old(s)@ + signed_decimal(t as int));
    } else {
        push_decimal(s, t as u64);
    }
}

/// The pieces of a text between newlines; there is always at least one.
pub open spec fn newline_pieces(s: Seq<char>) -> Seq<Seq<char>>
    decreases s.len(),
{
    if s.len() == 0 {
        seq![Seq::empty()]
    } else {
        let r = newline_pieces(s.drop_last());
        if s.last() == '\n' {
            r.push(Seq::empty())
        } else {
            r.update(r.len() - 1, r.last().push(s.last()))
        }
    }
}

/// A line without the carriage return that ended it, if one did.
pub open spec fn without_cr(l: Seq<char>) -> Seq<char> {
    if l.len() > 0 && l.last() == '\r' {
        l.drop_last()
    } else {
        l
    }
}

/// The lines of a text: each line ended by a newline, less that newline and a
/// carriage return just before it, then the rest of the text if it is not
/// empty.
pub open spec fn lines_of(s: Seq<char>) -> Seq<Seq<char>> {
    let p = newline_pieces(s);
    p.drop_last().map_values(|l: Seq<char>| without_cr(l)) + if p.last().len() > 0 {
        seq![p.last()]
    } else {
        Seq::empty()
    }
}

proof fn lemma_newline_pieces_nonempty(s: Seq<char>)
    ensures
        newline_pieces(s).len() >= 1,
    decreases s.len(),
{
    if s.len() > 0 {
        lemma_newline_pieces_nonempty(s.drop_last());
    }
}

/// The lines of a text, as `lines_of` describes them.
pub fn split_lines(text: &str) -> (r: Vec<String>)
    ensures
        texts(r@) == lines_of(text@),
{
    let n = text.unicode_len();
    let mut done: Vec<String> = Vec::new();
    let mut cur = String::new();
    let mut i: usize = 0;
    while i < n
        invariant
            n == text@.len(),
            i <= n,
            texts(done@) == newline_pieces(text@.take(i as int)).drop_last().map_values(|l: Seq<char>| without_cr(l)),
            cur@ == newline_pieces(text@.take(i as int)).last(),
        decreases n - i,
    {
        let ghost p = newline_pieces(text@.take(i as int));
        proof {
            lemma_newline_pieces_nonempty(text@.take(i as int));
        }
        assert(text@.take(i + 1).drop_last() =~= text@.take(i as int));
        let c = text.get_char(i);
        if c == '\n' {
            let mut line = cur;
            let k = line.unicode_len();
            if k > 0 && line.get_char(k - 1) == '\r' {
                pop_char(&mut line);
            }
            assert(line@ == without_cr(p.last()));
            let ghost before = done@;
            assert(texts(before).len() == p.len() - 1);
            assert(before.len() == p.len() - 1);
            done.push(line);
            assert(done@.len() == p.len());
            assert forall|k: int| 0 <= k < p.len() implies #[trigger] texts(done@)[k] == without_cr(p[k]) by {
                if k < p.len() - 1 {
                    assert(done@[k] == before[k]);
                    assert(texts(before)[k] == p.drop_last().map_values(|l: Seq<char>| without_cr(l))[k]);
                }
            }
            cur = String::new();
            assert(newline_pieces(text@.take(i + 1)) == p.push(Seq::empty()));
            assert(p.push(Seq::<char>::empty()).drop_last() =~= p);
            assert(texts(done@) =~= p.map_values(|l: Seq<char>| without_cr(l)));
        } else {
            push_char(&mut cur, c);
            assert(newline_pieces(text@.take(i + 1)).drop_last() =~= p.drop_last());
        }
        i += 1;
    }
    proof {
        lemma_newline_pieces_nonempty(text@.take(i as int));
    }
    assert(text@.take(i as int) =~= text@);
    if cur.unicode_len() > 0 {
        done.push(cur);
    }
    assert(texts(done@) =~= lines_of(text@));
    done
}

} // verus!
