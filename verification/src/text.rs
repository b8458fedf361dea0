//! Text that the program shows or compares: numbers, columns, paths, lines.

use vstd::prelude::*;
use vstd::string::*;
use vstd::utf8::*;

use crate::bytes::same_bytes;

verus! {

/// The character for a digit below sixteen, in lower case.
pub open spec fn digit(d: nat) -> char {
    if d < 10 {
        (48 + d) as char
    } else {
        (87 + d) as char
    }
}

/// `n` in base ten, without leading zeros.
pub open spec fn decimal(n: nat) -> Seq<char>
    decreases n,
{
    if n < 10 {
        seq![digit(n)]
    } else {
        decimal(n / 10).push(digit(n % 10))
    }
}

/// The low `width` hexadecimal digits of `n`.
pub open spec fn hex_digits(n: nat, width: nat) -> Seq<char>
    decreases width,
{
    if width == 0 {
        Seq::empty()
    } else {
        hex_digits(n / 16, (width - 1) as nat).push(digit(n % 16))
    }
}

/// `s` followed by spaces up to `width` characters.
pub open spec fn padded(s: Seq<char>, width: nat) -> Seq<char> {
    if s.len() >= width {
        s
    } else {
        s + Seq::new((width - s.len()) as nat, |i: int| ' ')
    }
}

/// The path of `name` inside the directory `base`.
pub open spec fn joined(base: Seq<char>, name: Seq<char>) -> Seq<char> {
    if base.len() == 0 || base.last() == '/' {
        base + name
    } else {
        base.push('/') + name
    }
}

/// What follows the last `mark` in `s`; all of `s` where there is none.
pub open spec fn after_last(s: Seq<char>, mark: char) -> Seq<char>
    decreases s.len(),
{
    if s.len() == 0 || s.last() == mark {
        Seq::empty()
    } else {
        after_last(s.drop_last(), mark).push(s.last())
    }
}

/// `after_last` is the longest tail without the mark.
pub proof fn lemma_after_last(s: Seq<char>, mark: char, at: int)
    requires
        0 <= at <= s.len(),
        at == 0 || s[at - 1] == mark,
        forall|i: int| at <= i < s.len() ==> s[i] != mark,
    ensures
        after_last(s, mark) == s.skip(at),
    decreases s.len(),
{
    if s.len() == at {
        assert(s.skip(at) =~= Seq::<char>::empty());
    } else {
        lemma_after_last(s.drop_last(), mark, at);
        assert(s.skip(at) =~= s.drop_last().skip(at).push(s.last()));
    }
}

/// The character for a digit, as text.
fn digit_text(d: u64) -> (r: &'static str)
    requires
        d < 16,
    ensures
        r@ == seq![digit(d as nat)],
{
    let r = match d {
        0 => "0",
        1 => "1",
        2 => "2",
        3 => "3",
        4 => "4",
        5 => "5",
        6 => "6",
        7 => "7",
        8 => "8",
        9 => "9",
        10 => "a",
        11 => "b",
        12 => "c",
        13 => "d",
        14 => "e",
        _ => "f",
    };
    proof {
        reveal_strlit("0");
        reveal_strlit("1");
        reveal_strlit("2");
        reveal_strlit("3");
        reveal_strlit("4");
        reveal_strlit("5");
        reveal_strlit("6");
        reveal_strlit("7");
        reveal_strlit("8");
        reveal_strlit("9");
        reveal_strlit("a");
        reveal_strlit("b");
        reveal_strlit("c");
        reveal_strlit("d");
        reveal_strlit("e");
        reveal_strlit("f");
        assert(r@ =~= seq![digit(d as nat)]);
    }
    r
}

/// `n` in base ten.
pub fn decimal_text(n: u64) -> (r: String)
    ensures
        r@ == decimal(n as nat),
    decreases n,
{
    if n < 10 {
        digit_text(n).to_owned()
    } else {
        let mut r = decimal_text(n / 10);
        r.append(digit_text(n % 10));
        assert(r@ =~= decimal(n as nat));
        r
    }
}

/// The low `width` hexadecimal digits of `n`.
pub fn hex_text(n: u64, width: usize) -> (r: String)
    ensures
        r@ == hex_digits(n as nat, width as nat),
    decreases width,
{
    if width == 0 {
        String::new()
    } else {
        let mut r = hex_text(n / 16, width - 1);
        r.append(digit_text(n % 16));
        assert(r@ =~= hex_digits(n as nat, width as nat));
        r
    }
}

/// `hex_digits` is as long as it was asked to be, and plain ASCII.
pub proof fn lemma_hex_digits(n: nat, width: nat)
    ensures
        hex_digits(n, width).len() == width,
        is_ascii_chars(hex_digits(n, width)),
    decreases width,
{
    if width > 0 {
        lemma_hex_digits(n / 16, (width - 1) as nat);
    }
}

/// `s` followed by spaces up to `width` characters.
pub fn pad(s: &str, width: usize) -> (r: String)
    ensures
        r@ == padded(s@, width as nat),
{
    let mut r = s.to_owned();
    let mut n: usize = s.unicode_len();
    proof {
        reveal_strlit(" ");
        assert(" "@ =~= seq![' ']);
    }
    while n < width
        invariant
            n >= s@.len(),
            n == r@.len(),
            n > s@.len() ==> n <= width,
            r@ =~= s@ + Seq::new((n - s@.len()) as nat, |i: int| ' '),
            " "@ =~= seq![' '],
        decreases width - n,
    {
        r.append(" ");
        n = n + 1;
    }
    assert(r@ =~= padded(s@, width as nat));
    r
}

/// The path of `name` inside the directory `base`.
pub fn join_path(base: &str, name: &str) -> (r: String)
    ensures
        r@ == joined(base@, name@),
{
    let n: usize = base.unicode_len();
    let mut r = base.to_owned();
    if n > 0 && base.get_char(n - 1) != '/' {
        proof {
            reveal_strlit("/");
            assert("/"@ =~= seq!['/']);
        }
        r.append("/");
    }
    r.append(name);
    assert(r@ =~= joined(base@, name@));
    r
}

/// What follows the last `mark` in `s`; all of `s` where there is none.
pub fn text_after_last(s: &str, mark: char) -> (r: String)
    ensures
        r@ == after_last(s@, mark),
{
    let n: usize = s.unicode_len();
    let mut at: usize = n;
    while at > 0 && s.get_char(at - 1) != mark
        invariant
            at <= n == s@.len(),
            forall|i: int| at <= i < n ==> s@[i] != mark,
        decreases at,
    {
        at = at - 1;
    }
    proof {
        lemma_after_last(s@, mark, at as int);
    }
    let r = s.substring_char(at, n).to_owned();
    assert(s@.subrange(at as int, n as int) =~= s@.skip(at as int));
    r
}

/// Two texts are the same exactly when their UTF-8 forms are.
pub proof fn lemma_utf8_injective(a: Seq<char>, b: Seq<char>)
    ensures
        encode_utf8(a) == encode_utf8(b) <==> a == b,
{
    encode_utf8_decode_utf8(a);
    encode_utf8_decode_utf8(b);
}

/// Whether two texts are the same.
pub fn same_text(a: &str, b: &str) -> (r: bool)
    ensures
        r == (a@ == b@),
{
    proof {
        lemma_utf8_injective(a@, b@);
    }
    same_bytes(a.as_bytes(), b.as_bytes())
}

/// What a list of texts says.
pub open spec fn texts(v: Seq<String>) -> Seq<Seq<char>> {
    v.map_values(|s: String| s@)
}

/// Append words to a list of texts.
pub fn push_words(v: &mut Vec<String>, words: &[&str])
    ensures
        texts(final(v)@) == texts(old(v)@) + words@.map_values(|w: &str| w@),
{
    let mut i: usize = 0;
    while i < words.len()
        invariant
            i <= words@.len(),
            texts(v@) =~= texts(old(v)@) + words@.take(i as int).map_values(|w: &str| w@),
        decreases words@.len() - i,
    {
        let ghost before = v@;
        let word: &str = words[i];
        v.push(word.to_owned());
        assert(texts(v@) =~= texts(before).push(word@));
        assert(words@.take(i + 1) =~= words@.take(i as int).push(word));
        i = i + 1;
    }
    assert(words@.take(i as int) =~= words@);
}

/// Whether a character is white space in Unicode.
pub open spec fn is_white(c: char) -> bool {
    let n = c as u32;
    ||| 9 <= n <= 13
    ||| n == 32
    ||| n == 0x85
    ||| n == 0xa0
    ||| n == 0x1680
    ||| 0x2000 <= n <= 0x200a
    ||| n == 0x2028
    ||| n == 0x2029
    ||| n == 0x202f
    ||| n == 0x205f
    ||| n == 0x3000
}

/// Whether a text holds nothing but white space.
pub open spec fn is_blank(s: Seq<char>) -> bool {
    forall|i: int| 0 <= i < s.len() ==> is_white(#[trigger] s[i])
}

/// Where the first line of a text ends.
pub open spec fn line_end(s: Seq<char>) -> nat
    decreases s.len(),
{
    if s.len() == 0 || s[0] == '\n' {
        0
    } else {
        1 + line_end(s.skip(1))
    }
}

/// The first line of a text, without its line end. A carriage return before
/// the line feed belongs to the line end.
pub open spec fn first_line(s: Seq<char>) -> Seq<char> {
    let line = s.take(line_end(s) as int);
    if line_end(s) < s.len() && line.len() > 0 && line.last() == '\r' {
        line.drop_last()
    } else {
        line
    }
}

/// What follows the first line of a text.
pub open spec fn later_lines(s: Seq<char>) -> Seq<char> {
    if line_end(s) < s.len() {
        s.skip(line_end(s) as int + 1)
    } else {
        Seq::empty()
    }
}

/// The last line of a text that is not blank; `best` where there is none.
pub open spec fn last_text_line(s: Seq<char>, best: Option<Seq<char>>) -> Option<Seq<char>>
    decreases s.len(),
{
    if s.len() == 0 {
        best
    } else {
        last_text_line(
            later_lines(s),
            if is_blank(first_line(s)) {
                best
            } else {
                Some(first_line(s))
            },
        )
    }
}

/// A text without the white space at its ends.
pub open spec fn trimmed(s: Seq<char>) -> Seq<char>
    decreases s.len(),
{
    if s.len() == 0 {
        s
    } else if is_white(s[0]) {
        trimmed(s.skip(1))
    } else if is_white(s.last()) {
        trimmed(s.drop_last())
    } else {
        s
    }
}

/// Whether a character is white space.
pub fn white(c: char) -> (r: bool)
    ensures
        r == is_white(c),
{
    let n: u32 = c as u32;
    (9 <= n && n <= 13) || n == 32 || n == 0x85 || n == 0xa0 || n == 0x1680 || (0x2000 <= n && n
        <= 0x200a) || n == 0x2028 || n == 0x2029 || n == 0x202f || n == 0x205f || n == 0x3000
}

/// A text without the white space at its ends.
pub fn trim(s: &str) -> (r: String)
    ensures
        r@ == trimmed(s@),
{
    let n: usize = s.unicode_len();
    let mut a: usize = 0;
    let mut b: usize = n;
    assert(s@.subrange(0, n as int) =~= s@);
    while a < b && white(s.get_char(a))
        invariant
            a <= b == n == s@.len(),
            trimmed(s@.subrange(a as int, b as int)) == trimmed(s@),
        decreases b - a,
    {
        proof {
            let part = s@.subrange(a as int, b as int);
            assert(part.skip(1) =~= s@.subrange(a + 1, b as int));
        }
        a = a + 1;
    }
    while a < b && white(s.get_char(b - 1))
        invariant
            a <= b <= n == s@.len(),
            trimmed(s@.subrange(a as int, b as int)) == trimmed(s@),
            a < b ==> !is_white(s@[a as int]),
        decreases b - a,
    {
        proof {
            let part = s@.subrange(a as int, b as int);
            assert(part.drop_last() =~= s@.subrange(a as int, b - 1));
        }
        b = b - 1;
    }
    s.substring_char(a, b).to_owned()
}

/// Whether a text holds nothing but white space.
fn blank(s: &str) -> (r: bool)
    ensures
        r == is_blank(s@),
{
    let n: usize = s.unicode_len();
    let mut i: usize = 0;
    while i < n
        invariant
            i <= n == s@.len(),
            forall|j: int| 0 <= j < i ==> is_white(#[trigger] s@[j]),
        decreases n - i,
    {
        if !white(s.get_char(i)) {
            return false;
        }
        i = i + 1;
    }
    true
}

/// Where a line ends is where its first line feed stands.
proof fn lemma_line_end(s: Seq<char>, at: int)
    requires
        0 <= at <= s.len(),
        at == s.len() || s[at] == '\n',
        forall|i: int| 0 <= i < at ==> s[i] != '\n',
    ensures
        line_end(s) == at,
    decreases s.len(),
{
    if at > 0 {
        lemma_line_end(s.skip(1), at - 1);
    }
}

/// The last line of a text that is not blank.
pub fn last_line(s: &str) -> (r: Option<String>)
    ensures
        match last_text_line(s@, None) {
            Some(line) => r matches Some(l) && l@ == line,
            None => r is None,
        },
{
    let n: usize = s.unicode_len();
    let mut best: Option<String> = None;
    let mut from: usize = 0;
    assert(s@.skip(0) =~= s@);
    while from < n
        invariant
            from <= n == s@.len(),
            last_text_line(
                s@.skip(from as int),
                match best {
                    Some(l) => Some(l@),
                    None => None,
                },
            ) == last_text_line(s@, None),
        decreases n - from,
    {
        let mut end: usize = from;
        while end < n && s.get_char(end) != '\n'
            invariant
                from <= end <= n == s@.len(),
                forall|i: int| from <= i < end ==> s@[i] != '\n',
            decreases n - end,
        {
            end = end + 1;
        }
        let ghost rest = s@.skip(from as int);
        proof {
            lemma_line_end(rest, end - from);
            assert(rest.take(end - from) =~= s@.subrange(from as int, end as int));
        }
        let stop: usize = if end < n && end > from && s.get_char(end - 1) == '\r' {
            end - 1
        } else {
            end
        };
        let line = s.substring_char(from, stop);
        assert(line@ =~= first_line(rest));
        if !blank(line) {
            best = Some(line.to_owned());
        }
        if end == n {
            assert(s@.skip(n as int) =~= Seq::<char>::empty());
            from = n;
        } else {
            assert(later_lines(rest) =~= s@.skip(end + 1));
            from = end + 1;
        }
    }
    assert(s@.skip(from as int) =~= Seq::<char>::empty());
    best
}

/// A text that ends in a line feed is read to its end before what follows it.
proof fn lemma_lines_before(noise: Seq<char>, tail: Seq<char>, best: Option<Seq<char>>) -> (b:
    Option<Seq<char>>)
    ensures
        last_text_line(noise.push('\n') + tail, best) == last_text_line(tail, b),
    decreases noise.len(),
{
    let s = noise.push('\n') + tail;
    let next = if is_blank(first_line(s)) {
        best
    } else {
        Some(first_line(s))
    };
    if noise.contains('\n') {
        let at = noise.index_of_first('\n')->0;
        noise.index_of_first_ensures('\n');
        lemma_line_end(s, at);
        let rest = noise.skip(at + 1);
        assert(later_lines(s) =~= rest.push('\n') + tail);
        lemma_lines_before(rest, tail, next)
    } else {
        assert forall|i: int| 0 <= i < noise.len() implies s[i] != '\n' by {
            assert(noise.contains(noise[i]));
        }
        lemma_line_end(s, noise.len() as int);
        assert(later_lines(s) =~= tail);
        next
    }
}

/// A line printed last is the one that is found, whatever was printed before it.
pub proof fn law_last_printed_line_is_found(noise: Seq<char>, line: Seq<char>)
    requires
        !is_blank(line),
        !line.contains('\n'),
        line.last() != '\r',
    ensures
        last_text_line(line.push('\n'), None) == Some(line),
        last_text_line(noise.push('\n') + line.push('\n'), None) == Some(line),
{
    let tail = line.push('\n');
    let b = lemma_lines_before(noise, tail, None);
    assert forall|i: int| 0 <= i < line.len() implies tail[i] != '\n' by {
        assert(line.contains(line[i]));
    }
    lemma_line_end(tail, line.len() as int);
    assert(tail.take(line.len() as int) =~= line);
    assert(later_lines(tail) =~= Seq::<char>::empty());
    assert(line.len() > 0);
    reveal_with_fuel(last_text_line, 2);
}

/// How the last line ends does not matter: with a carriage return and a line
/// feed, or with nothing at all, it is found without its end.
pub proof fn law_line_ends_do_not_matter(noise: Seq<char>, line: Seq<char>)
    requires
        !is_blank(line),
        !line.contains('\n'),
    ensures
        last_text_line(noise.push('\n') + line.push('\r').push('\n'), None) == Some(line),
        last_text_line(noise.push('\n') + line, None) == Some(line),
{
    assert(line.len() > 0);
    assert forall|i: int| 0 <= i < line.len() implies line[i] != '\n' by {
        assert(line.contains(line[i]));
    }
    reveal_with_fuel(last_text_line, 2);
    let crlf = line.push('\r').push('\n');
    let b = lemma_lines_before(noise, crlf, None);
    lemma_line_end(crlf, line.len() as int + 1);
    assert(crlf.take(line.len() as int + 1) =~= line.push('\r'));
    assert(line.push('\r').drop_last() =~= line);
    assert(later_lines(crlf) =~= Seq::<char>::empty());
    let c = lemma_lines_before(noise, line, None);
    lemma_line_end(line, line.len() as int);
    assert(line.take(line.len() as int) =~= line);
    assert(later_lines(line) =~= Seq::<char>::empty());
}

} // verus!
