//! Characters and text: whitespace, trimming, lines, decimal numbers.

use vstd::prelude::*;

verus! {

/// `String::push` appends one character to the end of the string.
pub assume_specification[ String::push ](s: &mut String, c: char)
    ensures
        final(s)@ == old(s)@.push(c),
;

/// The texts that a sequence of strings holds.
pub open spec fn texts(v: Seq<String>) -> Seq<Seq<char>> {
    v.map_values(|s: String| s@)
}

/// The characters that carry the Unicode property `White_Space`.
pub open spec fn is_whitespace(c: char) -> bool {
    let n = c as u32;
    ||| 0x09 <= n <= 0x0D
    ||| n == 0x20
    ||| n == 0x85
    ||| n == 0xA0
    ||| n == 0x1680
    ||| 0x2000 <= n <= 0x200A
    ||| n == 0x2028
    ||| n == 0x2029
    ||| n == 0x202F
    ||| n == 0x205F
    ||| n == 0x3000
}

/// Tells whether `c` is a whitespace character.
pub fn whitespace(c: char) -> (b: bool)
    ensures
        b == is_whitespace(c),
{
    let n: u32 = c as u32;
    (0x09 <= n && n <= 0x0D) || n == 0x20 || n == 0x85 || n == 0xA0 || n == 0x1680 || (0x2000 <= n
        && n <= 0x200A) || n == 0x2028 || n == 0x2029 || n == 0x202F || n == 0x205F || n == 0x3000
}

/// The characters of `s`, in order.
pub fn chars_of(s: &str) -> (v: Vec<char>)
    ensures
        v@ == s@,
{
    let mut v: Vec<char> = Vec::new();
    for c in it: s.chars()
        invariant
            it.seq() == s@,
            v@ == it.seq().take(it.index()),
    {
        v.push(c);
    }
    v
}

/// Appends the characters `v[from..to]` to `out`.
pub fn push_chars(out: &mut String, v: &Vec<char>, from: usize, to: usize)
    requires
        from <= to <= v.len(),
    ensures
        final(out)@ == old(out)@ + v@.subrange(from as int, to as int),
{
    let mut i: usize = from;
    while i < to
        invariant
            from <= i <= to <= v.len(),
            out@ == old(out)@ + v@.subrange(from as int, i as int),
        decreases to - i,
    {
        out.push(v[i]);
        i += 1;
    }
}

/// Appends the text `s` to `out`.
pub fn push_text(out: &mut String, s: &str)
    ensures
        final(out)@ == old(out)@ + s@,
{
    let v = chars_of(s);
    push_chars(out, &v, 0, v.len());
    assert(v@.subrange(0, v.len() as int) == v@);
}

/// The string made of the characters of `v`.
pub fn text_of(v: &Vec<char>) -> (s: String)
    ensures
        s@ == v@,
{
    let mut s = String::new();
    push_chars(&mut s, v, 0, v.len());
    assert(v@.subrange(0, v.len() as int) == v@);
    s
}

/// Tells whether two texts hold the same characters.
pub fn same_text(a: &str, b: &str) -> (r: bool)
    ensures
        r == (a@ == b@),
{
    let x = chars_of(a);
    let y = chars_of(b);
    if x.len() != y.len() {
        return false;
    }
    let mut i: usize = 0;
    while i < x.len()
        invariant
            i <= x.len(),
            x.len() == y.len(),
            x@ == a@,
            y@ == b@,
            x@.take(i as int) == y@.take(i as int),
        decreases x.len() - i,
    {
        if x[i] != y[i] {
            assert(a@[i as int] != b@[i as int]);
            return false;
        }
        assert(x@.take(i + 1) == x@.take(i as int).push(x@[i as int]));
        assert(y@.take(i + 1) == y@.take(i as int).push(y@[i as int]));
        i += 1;
    }
    assert(x@.take(x.len() as int) == x@);
    assert(y@.take(y.len() as int) == y@);
    true
}

/// The first position from `from` on that holds no whitespace, or the length
/// of `s` where there is none.
pub open spec fn skip_spaces(s: Seq<char>, from: int) -> int
    decreases s.len() - from,
{
    if 0 <= from < s.len() && is_whitespace(s[from]) {
        skip_spaces(s, from + 1)
    } else {
        from
    }
}

/// The end of `s[..to]` once the whitespace at its end is left out.
pub open spec fn drop_spaces(s: Seq<char>, to: int) -> int
    decreases to,
{
    if 0 < to <= s.len() && is_whitespace(s[to - 1]) {
        drop_spaces(s, to - 1)
    } else {
        to
    }
}

/// `s` without the whitespace at its start and at its end.
pub open spec fn trimmed(s: Seq<char>) -> Seq<char> {
    let start = skip_spaces(s, 0);
    if start >= s.len() {
        Seq::empty()
    } else {
        s.subrange(start, drop_spaces(s, s.len() as int))
    }
}

/// `s` without the whitespace at its start and at its end.
pub fn trim(s: &str) -> (r: String)
    ensures
        r@ == trimmed(s@),
        r@.len() > 0 ==> !is_whitespace(r@.first()) && !is_whitespace(r@.last()),
{
    proof {
        lemma_trimmed(s@);
    }
    let v = chars_of(s);
    let n = v.len();
    let mut a: usize = 0;
    while a < n && whitespace(v[a])
        invariant
            a <= n,
            n == v.len(),
            skip_spaces(v@, a as int) == skip_spaces(v@, 0),
        decreases n - a,
    {
        a += 1;
    }
    let mut r = String::new();
    if a == n {
        return r;
    }
    let mut b: usize = n;
    while whitespace(v[b - 1])
        invariant
            a < b <= n,
            n == v.len(),
            !is_whitespace(v@[a as int]),
            drop_spaces(v@, b as int) == drop_spaces(v@, n as int),
        decreases b,
    {
        b -= 1;
    }
    push_chars(&mut r, &v, a, b);
    r
}

/// What holds of a trimmed text: it is a part of the text, whitespace alone
/// stands before and after it, and none stands at its start or at its end.
pub proof fn lemma_trimmed(s: Seq<char>)
    ensures
        ({
            let a = skip_spaces(s, 0);
            let b = if a >= s.len() {
                a
            } else {
                drop_spaces(s, s.len() as int)
            };
            &&& 0 <= a <= b <= s.len()
            &&& trimmed(s) == s.subrange(a, b)
            &&& forall|k: int| 0 <= k < a || b <= k < s.len() ==> is_whitespace(#[trigger] s[k])
            &&& a < b ==> !is_whitespace(s[a]) && !is_whitespace(s[b - 1])
        }),
{
    lemma_skip_spaces(s, 0);
    let a = skip_spaces(s, 0);
    if a < s.len() {
        lemma_drop_spaces(s, s.len() as int, a);
    } else {
        assert(s.subrange(a, a) =~= Seq::empty());
    }
}

proof fn lemma_skip_spaces(s: Seq<char>, from: int)
    requires
        0 <= from <= s.len(),
    ensures
        from <= skip_spaces(s, from) <= s.len(),
        forall|k: int| from <= k < skip_spaces(s, from) ==> is_whitespace(#[trigger] s[k]),
        skip_spaces(s, from) < s.len() ==> !is_whitespace(s[skip_spaces(s, from)]),
    decreases s.len() - from,
{
    if from < s.len() && is_whitespace(s[from]) {
        lemma_skip_spaces(s, from + 1);
    }
}

proof fn lemma_drop_spaces(s: Seq<char>, to: int, a: int)
    requires
        0 <= a < to <= s.len(),
        !is_whitespace(s[a]),
    ensures
        a < drop_spaces(s, to) <= to,
        forall|k: int| drop_spaces(s, to) <= k < to ==> is_whitespace(#[trigger] s[k]),
        !is_whitespace(s[drop_spaces(s, to) - 1]),
    decreases to,
{
    if is_whitespace(s[to - 1]) {
        lemma_drop_spaces(s, to - 1, a);
    }
}

/// The character that stands for the digit `d`.
pub open spec fn digit(d: nat) -> char {
    if d == 0 {
        '0'
    } else if d == 1 {
        '1'
    } else if d == 2 {
        '2'
    } else if d == 3 {
        '3'
    } else if d == 4 {
        '4'
    } else if d == 5 {
        '5'
    } else if d == 6 {
        '6'
    } else if d == 7 {
        '7'
    } else if d == 8 {
        '8'
    } else {
        '9'
    }
}

/// The number `n` written in decimal digits.
pub open spec fn decimal(n: nat) -> Seq<char>
    decreases n,
{
    if n < 10 {
        seq![digit(n)]
    } else {
        decimal(n / 10).push(digit(n % 10))
    }
}

/// The whole number `n` written in decimal digits, with a minus sign where it
/// is negative.
pub open spec fn signed_decimal(n: int) -> Seq<char> {
    if n < 0 {
        seq!['-'] + decimal((-n) as nat)
    } else {
        decimal(n as nat)
    }
}

fn digit_char(d: u64) -> (c: char)
    requires
        d < 10,
    ensures
        c == digit(d as nat),
{
    if d == 0 {
        '0'
    } else if d == 1 {
        '1'
    } else if d == 2 {
        '2'
    } else if d == 3 {
        '3'
    } else if d == 4 {
        '4'
    } else if d == 5 {
        '5'
    } else if d == 6 {
        '6'
    } else if d == 7 {
        '7'
    } else if d == 8 {
        '8'
    } else {
        '9'
    }
}

/// Appends `n`, written in decimal digits, to `out`.
pub fn push_decimal(out: &mut String, n: u64)
    ensures
        final(out)@ == old(out)@ + decimal(n as nat),
    decreases n,
{
    if n >= 10 {
        push_decimal(out, n / 10);
    }
    out.push(digit_char(n % 10));
}

/// The whole number `n` written in decimal digits.
pub fn decimal_text(n: i32) -> (r: String)
    ensures
        r@ == signed_decimal(n as int),
{
    let mut r = String::new();
    if n < 0 {
        r.push('-');
        let size: u64 = (-(n as i64)) as u64;
        push_decimal(&mut r, size);
    } else {
        push_decimal(&mut r, n as u64);
    }
    r
}

/// The end of the line that holds position `from`: the position of the next
/// line feed, or the length of `s` where none follows.
pub open spec fn line_end(s: Seq<char>, from: int) -> int
    decreases s.len() - from,
{
    if 0 <= from < s.len() && s[from] != '\n' {
        line_end(s, from + 1)
    } else {
        from
    }
}

/// `line` without the carriage return at its end, if one stands there.
pub open spec fn without_return(line: Seq<char>) -> Seq<char> {
    if line.len() > 0 && line.last() == '\r' {
        line.drop_last()
    } else {
        line
    }
}

/// The lines of `s` from position `from` on.
pub open spec fn lines_from(s: Seq<char>, from: int) -> Seq<Seq<char>>
    decreases s.len() - from,
{
    if 0 <= from < s.len() {
        let end = line_end(s, from);
        if from <= end < s.len() {
            seq![without_return(s.subrange(from, end))] + lines_from(s, end + 1)
        } else {
            seq![s.subrange(from, s.len() as int)]
        }
    } else {
        Seq::empty()
    }
}

/// The lines of `s`. A line ends at a line feed, or at a carriage return
/// followed by one; neither is part of the line. The last line needs no line
/// ending, and a text that ends with one has no empty line after it.
pub open spec fn lines(s: Seq<char>) -> Seq<Seq<char>> {
    lines_from(s, 0)
}

proof fn lemma_line_end(s: Seq<char>, from: int)
    requires
        0 <= from <= s.len(),
    ensures
        from <= line_end(s, from) <= s.len(),
        forall|k: int| from <= k < line_end(s, from) ==> #[trigger] s[k] != '\n',
        line_end(s, from) < s.len() ==> s[line_end(s, from)] == '\n',
    decreases s.len() - from,
{
    if from < s.len() && s[from] != '\n' {
        lemma_line_end(s, from + 1);
    }
}

/// The lines of `s`.
pub fn split_lines(s: &str) -> (r: Vec<String>)
    ensures
        texts(r@) == lines(s@),
{
    let v = chars_of(s);
    let n = v.len();
    let mut r: Vec<String> = Vec::new();
    let mut from: usize = 0;
    assert(texts(r@) =~= Seq::empty());
    while from < n
        invariant
            from <= n,
            n == v.len(),
            v@ == s@,
            texts(r@) + lines_from(v@, from as int) == lines(v@),
        decreases n - from,
    {
        let mut end: usize = from;
        while end < n && v[end] != '\n'
            invariant
                from <= end <= n,
                n == v.len(),
                line_end(v@, end as int) == line_end(v@, from as int),
            decreases n - end,
        {
            end += 1;
        }
        let ghost before = texts(r@);
        let mut line = String::new();
        if end < n && end > from && v[end - 1] == '\r' {
            push_chars(&mut line, &v, from, end - 1);
            assert(v@.subrange(from as int, end - 1) == v@.subrange(
                from as int,
                end as int,
            ).drop_last());
        } else {
            push_chars(&mut line, &v, from, end);
        }
        r.push(line);
        assert(texts(r@) =~= before.push(line@));
        if end < n {
            assert(before.push(line@) + lines_from(v@, end + 1) =~= before + (seq![line@]
                + lines_from(v@, end + 1)));
            from = end + 1;
        } else {
            assert(before.push(line@) + Seq::<Seq<char>>::empty() =~= before + seq![line@]);
            from = n;
        }
    }
    assert(texts(r@) + Seq::<Seq<char>>::empty() =~= texts(r@));
    r
}

/// Whether `log` is empty or ends with a line feed.
pub open spec fn ends_lines(log: Seq<char>) -> bool {
    log.len() == 0 || log.last() == '\n'
}

/// Whether `line` can stand as one line of a text on its own: it is not
/// empty, holds no line feed, and does not end with a carriage return.
pub open spec fn is_line(line: Seq<char>) -> bool {
    &&& line.len() > 0
    &&& forall|k: int| 0 <= k < line.len() ==> #[trigger] line[k] != '\n'
    &&& line.last() != '\r'
}

proof fn lemma_line_end_within(a: Seq<char>, b: Seq<char>, from: int)
    requires
        0 <= from <= a.len(),
        line_end(a, from) < a.len(),
    ensures
        line_end(a + b, from) == line_end(a, from),
    decreases a.len() - from,
{
    if from < a.len() && a[from] != '\n' {
        lemma_line_end_within(a, b, from + 1);
    }
}

proof fn lemma_line_end_beyond(a: Seq<char>, b: Seq<char>, j: int)
    requires
        0 <= j <= b.len(),
    ensures
        line_end(a + b, a.len() + j) == a.len() + line_end(b, j),
    decreases b.len() - j,
{
    if j < b.len() && b[j] != '\n' {
        lemma_line_end_beyond(a, b, j + 1);
    }
}

proof fn lemma_lines_beyond(a: Seq<char>, b: Seq<char>, j: int)
    requires
        0 <= j <= b.len(),
    ensures
        lines_from(a + b, a.len() + j) == lines_from(b, j),
    decreases b.len() - j,
{
    if j < b.len() {
        lemma_line_end_beyond(a, b, j);
        lemma_line_end(b, j);
        let end = line_end(b, j);
        assert((a + b).subrange(a.len() + j, a.len() + end) =~= b.subrange(j, end));
        assert((a + b).subrange(a.len() + j, (a + b).len() as int) =~= b.subrange(
            j,
            b.len() as int,
        ));
        if end < b.len() {
            lemma_lines_beyond(a, b, end + 1);
        }
    }
}

/// The lines of a text that ends its last line, followed by another text, are
/// the lines of the first and then the lines of the second.
pub proof fn lemma_lines_of_both(a: Seq<char>, b: Seq<char>, from: int)
    requires
        ends_lines(a),
        0 <= from <= a.len(),
    ensures
        lines_from(a + b, from) == lines_from(a, from) + lines_from(b, 0),
    decreases a.len() - from,
{
    if from < a.len() {
        lemma_line_end(a, from);
        let end = line_end(a, from);
        lemma_line_end_within(a, b, from);
        assert((a + b).subrange(from, end) =~= a.subrange(from, end));
        lemma_lines_of_both(a, b, end + 1);
        assert(lines_from(a + b, from) =~= lines_from(a, from) + lines_from(b, 0));
    } else {
        lemma_lines_beyond(a, b, 0);
        assert(lines_from(a, from) + lines_from(b, 0) =~= lines_from(b, 0));
    }
}

/// A line that can stand on its own, followed by a line feed, is a text of
/// that one line.
pub proof fn lemma_lines_of_one(line: Seq<char>)
    requires
        is_line(line),
    ensures
        lines(line + seq!['\n']) == seq![line],
{
    let s = line + seq!['\n'];
    lemma_line_end(s, 0);
    let end = line_end(s, 0);
    assert(end == line.len()) by {
        assert(s[line.len() as int] == '\n');
        if end < line.len() {
            assert(s[end] == line[end]);
        }
    }
    assert(s.subrange(0, end) =~= line);
    assert(lines_from(s, end + 1) =~= Seq::empty());
    assert(lines(s) =~= seq![line]);
}

} // verus!
